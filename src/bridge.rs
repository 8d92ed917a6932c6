//! The stream bridge: two forwarding directions between the local standard
//! streams and the won connection, ending together when either one ends.
use vstd::prelude::*;
use crate::race::RunError;

verus! {

/// Size of one read, in either direction.
pub const CHUNK_SIZE: usize = 8192;

/// A forwarding direction.
#[derive(Clone, Copy, Debug, PartialEq, Eq, Structural)]
pub enum Direction {
    /// Local input to the connection.
    Outbound,
    /// The connection to local output.
    Inbound,
}

/// Why a bridge session ended.
#[derive(Clone, Copy, Debug, PartialEq, Eq, Structural)]
pub enum BridgeEnd {
    /// Local input reached its end.
    LocalClosed,
    /// The remote side closed the connection.
    RemoteClosed,
    /// A read or a write of this direction failed.
    IoError(Direction),
}

/// What the caller does next for one direction.
#[derive(Clone, Debug)]
pub enum BridgeStep {
    /// Write these bytes to the direction's destination (and flush it).
    Write(Vec<u8>),
    /// Read the direction's source again.
    Read,
    /// The whole session is over.
    Stop(BridgeEnd),
}

/// The clean end of stream of a direction's source.
pub open spec fn closed_end(dir: Direction) -> BridgeEnd {
    match dir {
        Direction::Outbound => BridgeEnd::LocalClosed,
        Direction::Inbound => BridgeEnd::RemoteClosed,
    }
}

/// The run's verdict for a session that ended with `end`.
pub open spec fn session_result_spec(end: BridgeEnd) -> Result<(), RunError> {
    match end {
        BridgeEnd::IoError(_) => Err(RunError::BridgeIOError),
        _ => Ok(()),
    }
}

/// One direction's bookkeeping: what was read from its source, and the part
/// of it handed out for writing that is not confirmed yet.
struct Pump {
    read_log: Ghost<Seq<u8>>,
    pending: Ghost<Seq<u8>>,
    in_flight: bool,
}

impl Pump {
    fn new() -> (r: Pump)
        ensures
            r.read_log@ == Seq::<u8>::empty(),
            r.pending@ == Seq::<u8>::empty(),
            !r.in_flight,
    {
        Pump { read_log: Ghost(Seq::empty()), pending: Ghost(Seq::empty()), in_flight: false }
    }
}

pub struct Bridge {
    outbound: Pump,
    inbound: Pump,
    end: Option<BridgeEnd>,
}

impl Bridge {
    spec fn pump(&self, dir: Direction) -> Pump {
        match dir {
            Direction::Outbound => self.outbound,
            Direction::Inbound => self.inbound,
        }
    }

    /// Every byte read from the source of `dir`, in order.
    pub closed spec fn read_log(&self, dir: Direction) -> Seq<u8> {
        self.pump(dir).read_log@
    }

    /// Every byte of `dir` whose write to its destination has been confirmed, in order.
    pub closed spec fn delivered(&self, dir: Direction) -> Seq<u8> {
        let p = self.pump(dir);
        p.read_log@.take(p.read_log@.len() - p.pending@.len())
    }

    /// Whether a chunk of `dir` is being written.
    pub closed spec fn in_flight(&self, dir: Direction) -> bool {
        self.pump(dir).in_flight
    }

    /// How the session ended, once it has.
    pub closed spec fn ended(&self) -> Option<BridgeEnd> {
        self.end
    }

    pub closed spec fn wf(&self) -> bool {
        &&& self.outbound.pending@.len() <= self.outbound.read_log@.len()
        &&& self.inbound.pending@.len() <= self.inbound.read_log@.len()
        &&& !self.outbound.in_flight ==> self.outbound.pending@.len() == 0
        &&& !self.inbound.in_flight ==> self.inbound.pending@.len() == 0
    }

    pub fn new() -> (r: Bridge)
        ensures
            r.wf(),
            r.ended() is None,
            forall|d: Direction|
                r.read_log(d) == Seq::<u8>::empty() && r.delivered(d) == Seq::<u8>::empty()
                    && !r.in_flight(d),
    {
        let r = Bridge { outbound: Pump::new(), inbound: Pump::new(), end: None };
        assert forall|d: Direction|
            r.read_log(d) == Seq::<u8>::empty() && r.delivered(d) == Seq::<u8>::empty()
                && !r.in_flight(d) by {
            assert(r.delivered(d) =~= Seq::<u8>::empty());
        }
        r
    }

    pub fn is_open(&self) -> (r: bool)
        ensures
            r == (self.ended() is None),
    {
        self.end.is_none()
    }

    /// A read of the source of `dir` into `buf` returned `res`. Bytes read are
    /// handed out whole and in order, a short read at once; an end of stream
    /// or an error ends the whole session.
    pub fn on_read(&mut self, dir: Direction, buf: &[u8], res: Result<usize, ()>) -> (r:
        BridgeStep)
        requires
            old(self).wf(),
            old(self).ended() is None,
            !old(self).in_flight(dir),
            res matches Ok(n) ==> n <= buf@.len(),
        ensures
            final(self).wf(),
            final(self).read_log(dir.other()) == old(self).read_log(dir.other()),
            final(self).delivered(dir.other()) == old(self).delivered(dir.other()),
            final(self).in_flight(dir.other()) == old(self).in_flight(dir.other()),
            final(self).delivered(dir) == old(self).delivered(dir),
            match res {
                Ok(n) => if n == 0 {
                    &&& r matches BridgeStep::Stop(e) && e == closed_end(dir)
                    &&& final(self).ended() == Some(closed_end(dir))
                    &&& final(self).read_log(dir) == old(self).read_log(dir)
                } else {
                    &&& r matches BridgeStep::Write(v) && v@ == buf@.take(n as int)
                    &&& final(self).ended() is None
                    &&& final(self).in_flight(dir)
                    &&& final(self).read_log(dir) == old(self).read_log(dir) + buf@.take(n as int)
                },
                Err(_) => {
                    &&& r matches BridgeStep::Stop(e) && e == BridgeEnd::IoError(dir)
                    &&& final(self).ended() == Some(BridgeEnd::IoError(dir))
                    &&& final(self).read_log(dir) == old(self).read_log(dir)
                },
            },
    {
        match res {
            Err(_) => {
                self.end = Some(BridgeEnd::IoError(dir));
                BridgeStep::Stop(BridgeEnd::IoError(dir))
            },
            Ok(n) => {
                if n == 0 {
                    let e = match dir {
                        Direction::Outbound => BridgeEnd::LocalClosed,
                        Direction::Inbound => BridgeEnd::RemoteClosed,
                    };
                    self.end = Some(e);
                    BridgeStep::Stop(e)
                } else {
                    let chunk = copy_prefix(buf, n);
                    match dir {
                        Direction::Outbound => {
                            self.outbound.read_log = Ghost(self.outbound.read_log@ + chunk@);
                            self.outbound.pending = Ghost(chunk@);
                            self.outbound.in_flight = true;
                        },
                        Direction::Inbound => {
                            self.inbound.read_log = Ghost(self.inbound.read_log@ + chunk@);
                            self.inbound.pending = Ghost(chunk@);
                            self.inbound.in_flight = true;
                        },
                    }
                    proof {
                        let p = self.pump(dir);
                        assert(p.read_log@.take(p.read_log@.len() - p.pending@.len())
                            =~= old(self).read_log(dir));
                    }
                    BridgeStep::Write(chunk)
                }
            },
        }
    }

    /// The write of the chunk in flight for `dir` finished, `ok` if it
    /// succeeded. After a success everything read from that source so far
    /// has been delivered; a failure ends the whole session.
    pub fn on_written(&mut self, dir: Direction, ok: bool) -> (r: BridgeStep)
        requires
            old(self).wf(),
            old(self).ended() is None,
            old(self).in_flight(dir),
        ensures
            final(self).wf(),
            final(self).read_log(dir.other()) == old(self).read_log(dir.other()),
            final(self).delivered(dir.other()) == old(self).delivered(dir.other()),
            final(self).in_flight(dir.other()) == old(self).in_flight(dir.other()),
            final(self).read_log(dir) == old(self).read_log(dir),
            ok ==> {
                &&& r is Read
                &&& final(self).ended() is None
                &&& !final(self).in_flight(dir)
                &&& final(self).delivered(dir) == final(self).read_log(dir)
            },
            !ok ==> {
                &&& r matches BridgeStep::Stop(e) && e == BridgeEnd::IoError(dir)
                &&& final(self).ended() == Some(BridgeEnd::IoError(dir))
                &&& final(self).delivered(dir) == old(self).delivered(dir)
            },
    {
        if ok {
            match dir {
                Direction::Outbound => {
                    self.outbound.pending = Ghost(Seq::empty());
                    self.outbound.in_flight = false;
                },
                Direction::Inbound => {
                    self.inbound.pending = Ghost(Seq::empty());
                    self.inbound.in_flight = false;
                },
            }
            proof {
                let p = self.pump(dir);
                assert(p.read_log@.take(p.read_log@.len() - p.pending@.len()) =~= p.read_log@);
            }
            BridgeStep::Read
        } else {
            self.end = Some(BridgeEnd::IoError(dir));
            BridgeStep::Stop(BridgeEnd::IoError(dir))
        }
    }
}

impl Direction {
    pub open spec fn other(self) -> Direction {
        match self {
            Direction::Outbound => Direction::Inbound,
            Direction::Inbound => Direction::Outbound,
        }
    }
}

/// The run's verdict for a session that ended with `end`: a clean end of
/// either stream is a success, an I/O failure is not.
pub fn session_result(end: BridgeEnd) -> (r: Result<(), RunError>)
    ensures
        r == session_result_spec(end),
{
    match end {
        BridgeEnd::IoError(_) => Err(RunError::BridgeIOError),
        _ => Ok(()),
    }
}

/// A zeroed buffer of one chunk.
pub fn chunk_buffer() -> (r: Vec<u8>)
    ensures
        r@.len() == CHUNK_SIZE,
{
    vec![0u8; CHUNK_SIZE]
}

/// The first `n` bytes of `buf`, in order.
fn copy_prefix(buf: &[u8], n: usize) -> (r: Vec<u8>)
    requires
        n <= buf@.len(),
    ensures
        r@ == buf@.take(n as int),
{
    let mut r: Vec<u8> = Vec::with_capacity(n);
    let mut i: usize = 0;
    while i < n
        invariant
            n <= buf@.len(),
            i <= n,
            r@ == buf@.take(i as int),
        decreases n - i,
    {
        r.push(buf[i]);
        i = i + 1;
        assert(r@ =~= buf@.take(i as int));
    }
    r
}

/// How an input of `data` arrives when each read returns as much as one chunk holds.
pub open spec fn chunks_of(data: Seq<u8>) -> Seq<Seq<u8>>
    decreases data.len(),
{
    if data.len() == 0 {
        Seq::empty()
    } else if data.len() <= CHUNK_SIZE {
        seq![data]
    } else {
        seq![data.take(CHUNK_SIZE as int)].add(chunks_of(data.skip(CHUNK_SIZE as int)))
    }
}

/// An input larger than one chunk crosses the bridge in several chunks, none
/// empty and none over the chunk size, which put back together in order give
/// the input unchanged.
pub proof fn lemma_chunks_reassemble(data: Seq<u8>)
    ensures
        chunks_of(data).flatten() == data,
        forall|i: int|
            0 <= i < chunks_of(data).len() ==> 0 < #[trigger] chunks_of(data)[i].len() <= CHUNK_SIZE,
        data.len() > CHUNK_SIZE ==> chunks_of(data).len() > 1,
    decreases data.len(),
{
    let c = chunks_of(data);
    if data.len() == 0 {
    } else if data.len() <= CHUNK_SIZE {
        seq![data].lemma_flatten_one_element();
    } else {
        let rest = data.skip(CHUNK_SIZE as int);
        lemma_chunks_reassemble(rest);
        assert(c.drop_first() =~= chunks_of(rest));
        assert(c.first() == data.take(CHUNK_SIZE as int));
        assert(data =~= data.take(CHUNK_SIZE as int) + rest);
        assert forall|i: int| 0 <= i < c.len() implies 0 < #[trigger] c[i].len() <= CHUNK_SIZE by {
            if i > 0 {
                assert(c[i] == chunks_of(rest)[i - 1]);
            }
        }
    }
}

/// Chunks read from a source and confirmed written one after another are
/// delivered as their concatenation: what came in is what went out.
pub proof fn lemma_delivered_in_order(bridge: Bridge, dir: Direction)
    requires
        bridge.wf(),
        !bridge.in_flight(dir),
    ensures
        bridge.delivered(dir) == bridge.read_log(dir),
{
    let p = bridge.pump(dir);
    assert(p.read_log@.take(p.read_log@.len() - p.pending@.len()) =~= p.read_log@);
}

} // verus!
