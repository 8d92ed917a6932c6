//! Target strings: a target without a port gets the default one.
use vstd::prelude::*;
use vstd::string::{StrSliceExecFns, StringExecFns};

verus! {

/// `target`, with `:22` appended when it holds no `:`.
pub open spec fn with_default_port_spec(target: Seq<char>) -> Seq<char> {
    if target.contains(':') {
        target
    } else {
        target + seq![':', '2', '2']
    }
}

/// Whether `target` holds a `:`.
pub fn has_port_separator(target: &str) -> (r: bool)
    ensures
        r == target@.contains(':'),
{
    let n = target.unicode_len();
    let mut i: usize = 0;
    while i < n
        invariant
            n == target@.len(),
            i <= n,
            forall|j: int| 0 <= j < i ==> target@[j] != ':',
        decreases n - i,
    {
        if target.get_char(i) == ':' {
            return true;
        }
        i = i + 1;
    }
    false
}

/// The target as it is resolved: unchanged when it names a port, with the
/// default port appended otherwise.
pub fn with_default_port(target: &str) -> (r: String)
    ensures
        r@ == with_default_port_spec(target@),
{
    let mut r = String::from_str(target);
    if !has_port_separator(target) {
        proof {
            reveal_strlit(":22");
        }
        r.append(":22");
        assert(r@ =~= target@ + seq![':', '2', '2']);
    }
    r
}

} // verus!
