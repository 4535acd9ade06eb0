//! The tracing session of one process: its entry/exit state machine, its
//! registers and reads of its memory.

use vstd::prelude::*;
use nix::errno::Errno;
use nix::unistd::Pid;
use crate::arch::{
    PAGE_SIZE, RegisterFile, argument_location, return_value_location,
    syscall_number_location,
};
use crate::page::{PageIter, pieces_view, segments, total_len};
use crate::sys;

verus! {

/// A failed tracing operation.
#[derive(Debug)]
pub enum OsTraceError {
    /// An address outside the traced process's mappings.
    BadAddress,
    /// Any other failure the kernel reported.
    Sys(Errno),
}

/// The kind of stop that waiting on the traced process reported.
#[derive(Clone, Copy, Debug, PartialEq, Eq, Structural)]
pub enum Notification {
    /// A stop at a system-call boundary, entry or exit.
    Syscall,
    /// The process exited with this status.
    Exited(i32),
    /// The process stopped on delivery of this signal.
    Stopped(u8),
}

/// What a stop means for the tracer.
#[derive(Clone, Copy, Debug, PartialEq, Eq, Structural)]
pub enum TraceEvent {
    SysEnter,
    SysExit,
    Signal(u8),
    Exit(i32),
}

/// Which side of a system call the traced process is on.
#[derive(Clone, Copy, Debug, PartialEq, Eq, Structural)]
pub enum Phase {
    Userspace,
    Kernelspace,
}

/// The phase after a stop, and the event it makes.
pub open spec fn transition(p: Phase, n: Notification) -> (Phase, TraceEvent) {
    match n {
        Notification::Syscall => match p {
            Phase::Userspace => (Phase::Kernelspace, TraceEvent::SysEnter),
            Phase::Kernelspace => (Phase::Userspace, TraceEvent::SysExit),
        },
        Notification::Exited(status) => (p, TraceEvent::Exit(status)),
        Notification::Stopped(sig) => (p, TraceEvent::Signal(sig)),
    }
}

/// The phase after a run of stops, from `p`.
pub open spec fn phase_after(p: Phase, ns: Seq<Notification>) -> Phase
    decreases ns.len(),
{
    if ns.len() == 0 {
        p
    } else {
        transition(phase_after(p, ns.drop_last()), ns.last()).0
    }
}

/// The event that stop `i` of a run from `Userspace` makes.
pub open spec fn event_at(ns: Seq<Notification>, i: int) -> TraceEvent {
    transition(phase_after(Phase::Userspace, ns.take(i)), ns[i]).1
}

/// How many of a run of stops are system-call stops.
pub open spec fn syscall_stops(ns: Seq<Notification>) -> nat
    decreases ns.len(),
{
    if ns.len() == 0 {
        0
    } else {
        syscall_stops(ns.drop_last()) + if ns.last() is Syscall {
            1nat
        } else {
            0nat
        }
    }
}

proof fn lemma_phase_parity(ns: Seq<Notification>)
    ensures
        phase_after(Phase::Userspace, ns) == if syscall_stops(ns) % 2 == 0 {
            Phase::Userspace
        } else {
            Phase::Kernelspace
        },
    decreases ns.len(),
{
    if ns.len() > 0 {
        lemma_phase_parity(ns.drop_last());
    }
}

/// From `Userspace`, the system-call stops of a run give entry, exit,
/// entry, exit, ... in turn: a stop is an entry exactly when an even number
/// of system-call stops came before it. A signal stop gives its signal and
/// takes no place in that alternation, and an exit stop gives its status.
pub proof fn lemma_entry_exit_alternate(ns: Seq<Notification>)
    ensures
        forall|i: int|
            0 <= i < ns.len() && ns[i] is Syscall ==> #[trigger] event_at(ns, i) == if syscall_stops(
                ns.take(i),
            ) % 2 == 0 {
                TraceEvent::SysEnter
            } else {
                TraceEvent::SysExit
            },
        forall|i: int|
            0 <= i < ns.len() && ns[i] is Stopped ==> #[trigger] event_at(ns, i)
                == TraceEvent::Signal(ns[i]->Stopped_0),
        forall|i: int|
            0 <= i < ns.len() && ns[i] is Exited ==> #[trigger] event_at(ns, i)
                == TraceEvent::Exit(ns[i]->Exited_0),
        forall|i: int|
            0 <= i < ns.len() && !(ns[i] is Syscall) ==> phase_after(Phase::Userspace, #[trigger] ns.take(i + 1))
                == phase_after(Phase::Userspace, ns.take(i)),
{
    assert forall|i: int| 0 <= i < ns.len() implies #[trigger] event_at(ns, i) == match ns[i] {
        Notification::Syscall => if syscall_stops(ns.take(i)) % 2 == 0 {
            TraceEvent::SysEnter
        } else {
            TraceEvent::SysExit
        },
        Notification::Stopped(sig) => TraceEvent::Signal(sig),
        Notification::Exited(status) => TraceEvent::Exit(status),
    } by {
        lemma_phase_parity(ns.take(i));
    }
    assert forall|i: int|
        0 <= i < ns.len() && !(ns[i] is Syscall) implies phase_after(
        Phase::Userspace,
        #[trigger] ns.take(i + 1),
    ) == phase_after(Phase::Userspace, ns.take(i)) by {
        assert(ns.take(i + 1).drop_last() =~= ns.take(i));
    }
}

/// A run of stops with its signal stops left out.
pub open spec fn drop_signals(ns: Seq<Notification>) -> Seq<Notification>
    decreases ns.len(),
{
    if ns.len() == 0 {
        ns
    } else if ns.last() is Stopped {
        drop_signals(ns.drop_last())
    } else {
        drop_signals(ns.drop_last()).push(ns.last())
    }
}

proof fn lemma_drop_signals_counts(ns: Seq<Notification>)
    ensures
        syscall_stops(drop_signals(ns)) == syscall_stops(ns),
    decreases ns.len(),
{
    if ns.len() > 0 {
        lemma_drop_signals_counts(ns.drop_last());
        let d = drop_signals(ns.drop_last());
        if !(ns.last() is Stopped) {
            assert(d.push(ns.last()).drop_last() =~= d);
        }
    }
}

proof fn lemma_drop_signals_prefix(ns: Seq<Notification>, m: int)
    requires
        0 <= m <= ns.len(),
    ensures
        drop_signals(ns.take(m)).len() <= drop_signals(ns).len(),
        drop_signals(ns).take(drop_signals(ns.take(m)).len() as int) == drop_signals(ns.take(m)),
    decreases ns.len(),
{
    let dm = drop_signals(ns.take(m));
    if m == ns.len() {
        assert(ns.take(m) =~= ns);
        assert(drop_signals(ns).take(dm.len() as int) =~= drop_signals(ns));
    } else {
        assert(ns.drop_last().take(m) =~= ns.take(m));
        lemma_drop_signals_prefix(ns.drop_last(), m);
        let d = drop_signals(ns.drop_last());
        if !(ns.last() is Stopped) {
            assert(d.push(ns.last()).take(dm.len() as int) =~= d.take(dm.len() as int));
        }
    }
}

/// Signal stops take no place in the entry/exit alternation: leaving them
/// out of a run from `Userspace` gives the same phase, and each other stop
/// gives the same event as it does in the run without signal stops.
pub proof fn lemma_signals_take_no_place(ns: Seq<Notification>)
    ensures
        phase_after(Phase::Userspace, drop_signals(ns)) == phase_after(Phase::Userspace, ns),
        forall|i: int|
            0 <= i < ns.len() && !(ns[i] is Stopped) ==> #[trigger] event_at(ns, i) == event_at(
                drop_signals(ns),
                drop_signals(ns.take(i)).len() as int,
            ),
{
    lemma_phase_parity(ns);
    lemma_phase_parity(drop_signals(ns));
    lemma_drop_signals_counts(ns);
    assert forall|i: int|
        0 <= i < ns.len() && !(ns[i] is Stopped) implies #[trigger] event_at(ns, i) == event_at(
        drop_signals(ns),
        drop_signals(ns.take(i)).len() as int,
    ) by {
        let d = drop_signals(ns);
        let di = drop_signals(ns.take(i));
        let j = di.len() as int;
        assert(ns.take(i + 1).drop_last() =~= ns.take(i));
        assert(drop_signals(ns.take(i + 1)) == di.push(ns[i]));
        lemma_drop_signals_prefix(ns, i + 1);
        assert(d.take(j + 1) == di.push(ns[i]));
        assert(d[j] == d.take(j + 1)[j]);
        assert(d.take(j) =~= d.take(j + 1).drop_last());
        assert(di.push(ns[i]).drop_last() =~= di);
        lemma_phase_parity(ns.take(i));
        lemma_phase_parity(di);
        lemma_drop_signals_counts(ns.take(i));
    }
}

impl Phase {
    /// Moves past one stop and says what it was.
    pub fn advance(&mut self, n: Notification) -> (e: TraceEvent)
        ensures
            (*final(self), e) == transition(*old(self), n),
    {
        match n {
            Notification::Syscall => match *self {
                Phase::Userspace => {
                    *self = Phase::Kernelspace;
                    TraceEvent::SysEnter
                },
                Phase::Kernelspace => {
                    *self = Phase::Userspace;
                    TraceEvent::SysExit
                },
            },
            Notification::Exited(status) => TraceEvent::Exit(status),
            Notification::Stopped(sig) => TraceEvent::Signal(sig),
        }
    }
}

/// Asks the parent process to trace this one; meant to run in a child just
/// before it replaces its program image.
pub fn traceme() -> (r: Result<(), OsTraceError>)
    ensures
        r is Err ==> r->Err_0 is Sys,
{
    match sys::ptrace_traceme() {
        Ok(()) => Ok(()),
        Err(e) => Err(OsTraceError::Sys(e)),
    }
}

/// The bound that a read from `addr` keeps to: `len`, cut where the address
/// space ends.
pub open spec fn read_bound(addr: usize, len: usize) -> int {
    if len <= usize::MAX - addr {
        len as int
    } else {
        usize::MAX - addr
    }
}

/// The pieces in which `len` bytes from `addr` are read.
pub open spec fn read_pieces(addr: usize, len: usize) -> Seq<(int, int)> {
    segments(addr as int, addr + read_bound(addr, len), PAGE_SIZE as int)
}

/// Whether `v` is what a bounded C-string copy of at most `len` bytes
/// can give: no NUL but possibly a last one, and no more than `len` bytes.
pub open spec fn bounded_cstr(v: Seq<u8>, len: int) -> bool {
    &&& v.len() <= len
    &&& forall|i: int| 0 <= i < v.len() - 1 ==> #[trigger] v[i] != 0
}

/// Whether a bounded C-string copy ended at a NUL or at its bound.
pub open spec fn cstr_complete(v: Seq<u8>, len: int) -> bool {
    v.len() == len || (v.len() > 0 && v[v.len() - 1] == 0)
}

/// Appends `chunk` to `acc` up to and including its first NUL, if any.
/// Returns whether a NUL was found.
pub fn append_until_nul(acc: &mut Vec<u8>, chunk: &Vec<u8>) -> (found: bool)
    ensures
        found <==> exists|k: int| 0 <= k < chunk@.len() && chunk@[k] == 0,
        found ==> exists|k: int|
            0 <= k < chunk@.len() && chunk@[k] == 0 && (forall|j: int|
                0 <= j < k ==> chunk@[j] != 0) && final(acc)@ == old(acc)@ + chunk@.take(k + 1),
        !found ==> final(acc)@ == old(acc)@ + chunk@,
{
    let ghost start = acc@;
    let mut i: usize = 0;
    while i < chunk.len()
        invariant
            i <= chunk@.len(),
            start == old(acc)@,
            acc@ == start + chunk@.take(i as int),
            forall|j: int| 0 <= j < i ==> chunk@[j] != 0,
        decreases chunk@.len() - i,
    {
        let b = chunk[i];
        acc.push(b);
        assert(chunk@.take(i + 1) =~= chunk@.take(i as int).push(b));
        if b == 0 {
            assert(chunk@[i as int] == 0 && acc@ == start + chunk@.take(i as int + 1));
            return true;
        }
        i = i + 1;
    }
    assert(chunk@.take(i as int) =~= chunk@);
    false
}

/// Whether `c` holds a NUL.
pub open spec fn has_nul(c: Seq<u8>) -> bool {
    exists|k: int| 0 <= k < c.len() && c[k] == 0
}

/// Whether `k` is the place of the first NUL in `c`.
pub open spec fn first_nul_at(c: Seq<u8>, k: int) -> bool {
    0 <= k < c.len() && c[k] == 0 && forall|j: int| 0 <= j < k ==> c[j] != 0
}

/// Takes in the read of one page of a C string and says what follows:
/// `Ok(Some(complete))` ends the copy, `Ok(None)` goes on to the next page.
/// `want` is the page's length, `first` whether it is the first page, and
/// `last` whether the copy's bound ends with it.
/// - A failed first page fails the copy.
/// - A later page outside the mappings ends the copy, incomplete; any other
///   failure is returned.
/// - A page that holds a NUL adds its bytes through that NUL and ends the
///   copy, complete.
/// - A short page without NUL adds its bytes and ends the copy, incomplete.
/// - A full page without NUL adds its bytes and ends the copy, complete,
///   where the bound ends with it; else the copy goes on.
pub fn absorb_page(
    acc: &mut Vec<u8>,
    read: Result<Vec<u8>, OsTraceError>,
    want: usize,
    first: bool,
    last: bool,
) -> (r: Result<Option<bool>, OsTraceError>)
    ensures
        read is Err ==> final(acc)@ == old(acc)@,
        read is Err && first ==> r == Err::<Option<bool>, OsTraceError>(read->Err_0),
        read is Err && !first && read->Err_0 is BadAddress ==> r == Ok::<
            Option<bool>,
            OsTraceError,
        >(Some(false)),
        read is Err && !first && read->Err_0 is Sys ==> r == Err::<Option<bool>, OsTraceError>(
            read->Err_0,
        ),
        (read is Ok && has_nul(read->Ok_0@)) ==> (r == Ok::<Option<bool>, OsTraceError>(Some(true))
            && exists|k: int|
            first_nul_at(read->Ok_0@, k) && final(acc)@ == old(acc)@ + read->Ok_0@.take(k + 1)),
        read is Ok && !has_nul(read->Ok_0@) ==> final(acc)@ == old(acc)@ + read->Ok_0@,
        read is Ok && !has_nul(read->Ok_0@) && read->Ok_0@.len() < want ==> r == Ok::<
            Option<bool>,
            OsTraceError,
        >(Some(false)),
        read is Ok && !has_nul(read->Ok_0@) && read->Ok_0@.len() >= want ==> r == if last {
            Ok::<Option<bool>, OsTraceError>(Some(true))
        } else {
            Ok::<Option<bool>, OsTraceError>(None)
        },
{
    match read {
        Err(e) => {
            if first {
                Err(e)
            } else {
                match e {
                    OsTraceError::BadAddress => Ok(Some(false)),
                    OsTraceError::Sys(x) => Err(OsTraceError::Sys(x)),
                }
            }
        },
        Ok(chunk) => {
            if append_until_nul(acc, &chunk) {
                proof {
                    let k = choose|k: int|
                        0 <= k < chunk@.len() && chunk@[k] == 0 && (forall|j: int|
                            0 <= j < k ==> chunk@[j] != 0) && acc@ == old(acc)@ + chunk@.take(
                            k + 1,
                        );
                    assert(first_nul_at(chunk@, k));
                }
                Ok(Some(true))
            } else if chunk.len() < want {
                Ok(Some(false))
            } else if last {
                Ok(Some(true))
            } else {
                Ok(None)
            }
        },
    }
}

/// Takes in the read of one batch of pages of a bulk copy and says whether
/// the copy goes on. `want` is the batch's length, `first` whether it is
/// the first batch.
/// - A failed first batch fails the copy.
/// - A later batch outside the mappings ends the copy; any other failure is
///   returned.
/// - A batch read adds its bytes; the copy goes on only if it was read whole.
pub fn absorb_batch(
    acc: &mut Vec<u8>,
    read: Result<Vec<u8>, OsTraceError>,
    want: usize,
    first: bool,
) -> (r: Result<bool, OsTraceError>)
    ensures
        read is Err ==> final(acc)@ == old(acc)@,
        read is Err && first ==> r == Err::<bool, OsTraceError>(read->Err_0),
        read is Err && !first && read->Err_0 is BadAddress ==> r == Ok::<bool, OsTraceError>(false),
        read is Err && !first && read->Err_0 is Sys ==> r == Err::<bool, OsTraceError>(read->Err_0),
        read is Ok ==> final(acc)@ == old(acc)@ + read->Ok_0@ && r == Ok::<bool, OsTraceError>(
            read->Ok_0@.len() >= want,
        ),
{
    match read {
        Err(e) => {
            if first {
                Err(e)
            } else {
                match e {
                    OsTraceError::BadAddress => Ok(false),
                    OsTraceError::Sys(x) => Err(OsTraceError::Sys(x)),
                }
            }
        },
        Ok(chunk) => {
            let ghost start = acc@;
            let mut i: usize = 0;
            while i < chunk.len()
                invariant
                    i <= chunk@.len(),
                    acc@ == start + chunk@.take(i as int),
                decreases chunk@.len() - i,
            {
                acc.push(chunk[i]);
                assert(chunk@.take(i + 1) =~= chunk@.take(i as int).push(chunk@[i as int]));
                i = i + 1;
            }
            assert(chunk@.take(i as int) =~= chunk@);
            Ok(chunk.len() >= want)
        },
    }
}

/// The tracing session of one process.
pub struct Tracee {
    pid: Pid,
    state: Phase,
    exited: bool,
}

impl Tracee {
    /// The current phase.
    pub closed spec fn phase(&self) -> Phase {
        self.state
    }

    /// The traced process.
    pub closed spec fn process(&self) -> Pid {
        self.pid
    }

    /// Whether the process's exit has been seen; the session is over then.
    pub closed spec fn exited(&self) -> bool {
        self.exited
    }

    /// Whether the process's exit has been seen.
    pub fn is_exited(&self) -> (r: bool)
        ensures
            r == self.exited(),
    {
        self.exited
    }

    /// Starts a session over a process that is stopped and traced by this
    /// one, in `Userspace`.
    pub fn new(pid: Pid) -> (r: Result<Tracee, OsTraceError>)
        ensures
            r matches Ok(t) ==> t.phase() == Phase::Userspace && t.process() == pid && !t.exited(),
            r is Err ==> r->Err_0 is Sys,
    {
        match sys::ptrace_setoptions(pid) {
            Ok(()) => Ok(Tracee { pid: pid, state: Phase::Userspace, exited: false }),
            Err(e) => Err(OsTraceError::Sys(e)),
        }
    }

    /// Takes in the next stop of the process. An exit stop ends the
    /// session: no call on it is valid afterwards.
    pub fn step(&mut self, n: Notification) -> (e: TraceEvent)
        requires
            !old(self).exited(),
        ensures
            (final(self).phase(), e) == transition(old(self).phase(), n),
            final(self).process() == old(self).process(),
            final(self).exited() == (n is Exited),
    {
        if let Notification::Exited(_) = n {
            self.exited = true;
        }
        self.state.advance(n)
    }

    /// Lets the process run to its next system-call boundary or signal.
    pub fn run(&mut self) -> (r: Result<(), OsTraceError>)
        requires
            !old(self).exited(),
        ensures
            *final(self) == *old(self),
            r is Err ==> r->Err_0 is Sys,
    {
        match sys::ptrace_syscall(self.pid) {
            Ok(()) => Ok(()),
            Err(e) => Err(OsTraceError::Sys(e)),
        }
    }

    /// Reads the process's register file.
    pub fn registers(&mut self) -> (r: Result<RegisterFile, OsTraceError>)
        requires
            !old(self).exited(),
        ensures
            *final(self) == *old(self),
            r is Err ==> r->Err_0 is Sys,
    {
        match sys::ptrace_getregs(self.pid) {
            Ok(regs) => Ok(regs),
            Err(e) => Err(OsTraceError::Sys(e)),
        }
    }

    /// The system-call number; meaningful right after a `SysEnter` event.
    pub fn get_syscall(&mut self) -> (r: Result<u64, OsTraceError>)
        requires
            !old(self).exited(),
        ensures
            *final(self) == *old(self),
            r is Err ==> r->Err_0 is Sys,
    {
        let regs = self.registers()?;
        Ok(regs.get(syscall_number_location()))
    }

    /// Argument `reg` of the system call; meaningful right after a
    /// `SysEnter` event.
    pub fn get_arg(&mut self, reg: u8) -> (r: Result<u64, OsTraceError>)
        requires
            !old(self).exited(),
            reg < 6,
        ensures
            *final(self) == *old(self),
            r is Err ==> r->Err_0 is Sys,
    {
        let regs = self.registers()?;
        Ok(regs.get(argument_location(reg)))
    }

    /// The return value of the system call; meaningful right after a
    /// `SysExit` event.
    pub fn get_return(&mut self) -> (r: Result<i64, OsTraceError>)
        requires
            !old(self).exited(),
        ensures
            *final(self) == *old(self),
            r is Err ==> r->Err_0 is Sys,
    {
        let regs = self.registers()?;
        Ok(regs.get(return_value_location()) as i64)
    }

    /// Reads up to `len` bytes from `addr`. The read goes page by page, in
    /// batches of at most `UIO_MAXIOV` pages, and stops at the first page
    /// that cannot be read, so the result may be shorter. It fails if the
    /// first batch cannot be read; an unmapped page further on only ends
    /// the result, and any other error is returned.
    pub fn copy_from(&mut self, addr: usize, len: usize) -> (r: Result<Vec<u8>, OsTraceError>)
        requires
            !old(self).exited(),
        ensures
            *final(self) == *old(self),
            len == 0 ==> (r matches Ok(v) && v@.len() == 0),
            len > 0 && read_bound(addr, len) == 0 ==> r matches Err(OsTraceError::BadAddress),
            r matches Ok(v) ==> exists|k: int|
                0 <= k <= read_pieces(addr, len).len() && v@.len() == total_len(
                    #[trigger] read_pieces(addr, len).take(k),
                ),
            r matches Ok(v) ==> v@.len() <= len,
    {
        if len == 0 {
            let v: Vec<u8> = Vec::new();
            assert(read_pieces(addr, len).take(0) =~= Seq::<(int, int)>::empty());
            assert(v@.len() == total_len(read_pieces(addr, len).take(0)));
            return Ok(v);
        }
        let bound: usize = if len <= usize::MAX - addr {
            len
        } else {
            usize::MAX - addr
        };
        if bound == 0 {
            return Err(OsTraceError::BadAddress);
        }
        let pieces = PageIter::new(addr, bound, PAGE_SIZE).collect();
        let ghost pv = pieces_view(pieces@);
        proof {
            crate::page::lemma_segments(addr as int, bound as int, PAGE_SIZE as int);
            assert(pv.take(0) =~= Seq::<(int, int)>::empty());
        }
        let batch_max = sys::max_iov();
        let mut out: Vec<u8> = Vec::new();
        let mut i: usize = 0;
        while i < pieces.len()
            invariant
                pv == pieces_view(pieces@),
                pv == read_pieces(addr, len),
                total_len(pv) == bound,
                bound <= len,
                forall|t: int| 0 <= t < pv.len() ==> 0 < #[trigger] pv[t].1,
                i <= pieces@.len(),
                batch_max == 1024,
                out@.len() == total_len(pv.take(i as int)),
            decreases pieces@.len() - i,
        {
            let end: usize = if pieces.len() - i > batch_max {
                i + batch_max
            } else {
                pieces.len()
            };
            let mut batch: Vec<(usize, usize)> = Vec::new();
            let mut want: usize = 0;
            let mut j: usize = i;
            proof {
                assert(pv.subrange(i as int, i as int) =~= Seq::<(int, int)>::empty());
                assert(pv.take(i as int) + pv.subrange(i as int, i as int) =~= pv.take(i as int));
            }
            while j < end
                invariant
                    i <= j <= end <= pieces@.len(),
                    pv == pieces_view(pieces@),
                    total_len(pv) == bound,
                    forall|t: int| 0 <= t < pv.len() ==> 0 < #[trigger] pv[t].1,
                    batch@ == pieces@.subrange(i as int, j as int),
                    want == total_len(pv.subrange(i as int, j as int)),
                    out@.len() == total_len(pv.take(i as int)),
                decreases end - j,
            {
                proof {
                    assert(pv.take(j + 1) =~= pv.take(i as int) + pv.subrange(i as int, j + 1));
                    assert(pv.subrange(i as int, j + 1) =~= pv.subrange(i as int, j as int) + seq![
                        pv[j as int],
                    ]);
                    lemma_total_concat(pv.subrange(i as int, j as int), seq![pv[j as int]]);
                    lemma_total_concat(pv.take(i as int), pv.subrange(i as int, j + 1));
                    lemma_total_one(pv[j as int]);
                    lemma_total_prefix_bound(pv, j + 1);
                    lemma_total_nonneg(pv.take(i as int));
                }
                let piece = pieces[j];
                batch.push(piece);
                want = want + piece.1;
                j = j + 1;
            }
            let ghost sub = pv.subrange(i as int, end as int);
            proof {
                assert(pieces_view(batch@) =~= sub);
            }
            let read = sys::process_vm_readv(self.pid, &batch, want);
            let ghost rd = read;
            let ghost prev = out@;
            let go_on = absorb_batch(&mut out, read, want, i == 0)?;
            proof {
                assert(pv.take(end as int) =~= pv.take(i as int) + sub);
                lemma_total_concat(pv.take(i as int), sub);
            }
            if !go_on {
                proof {
                    if rd is Ok {
                        let got = rd->Ok_0@.len() as int;
                        let k = choose|k: int|
                            0 <= k <= sub.len() && got == total_len(#[trigger] sub.take(k));
                        assert(sub.len() == end - i);
                        assert(pv.take(i + k) =~= pv.take(i as int) + sub.take(k));
                        lemma_total_concat(pv.take(i as int), sub.take(k));
                        lemma_total_prefix_bound(pv, i + k);
                        assert(out@.len() == total_len(read_pieces(addr, len).take(i + k)));
                    } else {
                        lemma_total_prefix_bound(pv, i as int);
                        assert(out@.len() == total_len(read_pieces(addr, len).take(i as int)));
                    }
                }
                return Ok(out);
            }
            proof {
                let got = rd->Ok_0@.len() as int;
                let k = choose|k: int|
                    0 <= k <= sub.len() && got == total_len(#[trigger] sub.take(k));
                assert forall|t: int| 0 <= t < sub.len() implies 0 < #[trigger] sub[t].1 by {
                    assert(sub[t] == pv[i + t]);
                }
                lemma_total_prefix_bound(sub, k);
            }
            i = end;
        }
        proof {
            assert(pv.take(i as int) =~= pv);
            assert(out@.len() == total_len(read_pieces(addr, len).take(i as int)));
        }
        Ok(out)
    }

    /// Reads a NUL-terminated string of at most `len` bytes from `addr`,
    /// page by page. Returns the bytes with their NUL, if one was found,
    /// and whether the copy is complete: it ended at a NUL or at `len`.
    /// It is not complete where a later page could not be read, or where
    /// the address space ends first. It fails if the first page cannot be
    /// read. As with `strncpy`, no NUL is added. What each page's read
    /// leads to is `absorb_page`.
    pub fn strncpy_from(&mut self, addr: usize, len: usize) -> (r: Result<
        (Vec<u8>, bool),
        OsTraceError,
    >)
        requires
            !old(self).exited(),
        ensures
            *final(self) == *old(self),
            len == 0 ==> (r matches Ok((v, c)) && v@.len() == 0 && c),
            len > 0 && read_bound(addr, len) == 0 ==> r matches Err(OsTraceError::BadAddress),
            r matches Ok((v, c)) ==> bounded_cstr(v@, len as int) && (c <==> cstr_complete(
                v@,
                len as int,
            )),
    {
        if len == 0 {
            return Ok((Vec::new(), true));
        }
        let bound: usize = if len <= usize::MAX - addr {
            len
        } else {
            usize::MAX - addr
        };
        if bound == 0 {
            return Err(OsTraceError::BadAddress);
        }
        let mut pages = PageIter::new(addr, bound, PAGE_SIZE);
        proof {
            crate::page::lemma_segments(addr as int, bound as int, PAGE_SIZE as int);
        }
        let mut res: Vec<u8> = Vec::new();
        let mut first = true;
        loop
            invariant
                pages.wf(),
                0 < bound <= len,
                bound == read_bound(addr, len),
                res@.len() + total_len(pages.remaining()) == bound,
                forall|i: int| 0 <= i < res@.len() ==> #[trigger] res@[i] != 0,
                forall|i: int|
                    0 <= i < pages.remaining().len() ==> 0 < #[trigger] pages.remaining()[i].1,
                pages.remaining().len() == 0 ==> bound < len,
            decreases pages.remaining().len(),
        {
            let ghost rest = pages.remaining();
            let (a, n) = match pages.next() {
                None => {
                    return Ok((res, false));
                },
                Some(c) => c,
            };
            proof {
                lemma_total_single(a, n);
                assert(rest[0].1 == n);
                assert(total_len(rest) == n + total_len(pages.remaining()));
                assert forall|i: int| 0 <= i < pages.remaining().len() implies 0
                    < #[trigger] pages.remaining()[i].1 by {
                    assert(pages.remaining()[i] == rest[i + 1]);
                }
                lemma_total_nonneg(pages.remaining());
            }
            let one = vec![(a, n)];
            assert(one@ =~= seq![(a, n)]);
            let read = sys::process_vm_readv(self.pid, &one, n);
            proof {
                if read is Ok {
                    lemma_single_read(one@, a, n, read->Ok_0@.len() as int);
                }
            }
            let last = pages.is_done() && bound == len;
            let ghost prev = res@;
            match absorb_page(&mut res, read, n, first, last) {
                Err(e) => {
                    return Err(e);
                },
                Ok(Some(c)) => {
                    proof {
                        if res@.len() > prev.len() {
                            assert forall|i: int| 0 <= i < res@.len() - 1 implies #[trigger] res@[i]
                                != 0 by {
                                if i < prev.len() {
                                    assert(res@[i] == prev[i]);
                                }
                            }
                        }
                    }
                    return Ok((res, c));
                },
                Ok(None) => {},
            }
            first = false;
        }
    }
}

proof fn lemma_total_concat(a: Seq<(int, int)>, b: Seq<(int, int)>)
    ensures
        total_len(a + b) == total_len(a) + total_len(b),
    decreases a.len(),
{
    if a.len() == 0 {
        assert(a + b =~= b);
    } else {
        assert((a + b).drop_first() =~= a.drop_first() + b);
        lemma_total_concat(a.drop_first(), b);
    }
}

proof fn lemma_total_one(c: (int, int))
    ensures
        total_len(seq![c]) == c.1,
{
    assert(seq![c].drop_first() =~= Seq::<(int, int)>::empty());
    reveal_with_fuel(total_len, 2);
}

proof fn lemma_total_single(a: usize, n: usize)
    ensures
        pieces_view(seq![(a, n)]) =~= seq![(a as int, n as int)],
        total_len(pieces_view(seq![(a, n)])) == n,
{
    let s = pieces_view(seq![(a, n)]);
    assert(s =~= seq![(a as int, n as int)]);
    assert(s.drop_first() =~= Seq::<(int, int)>::empty());
    reveal_with_fuel(total_len, 2);
}

proof fn lemma_single_read(one: Seq<(usize, usize)>, a: usize, n: usize, got: int)
    requires
        one == seq![(a, n)],
        exists|k: int| 0 <= k <= one.len() && got == total_len(#[trigger] pieces_view(one).take(k)),
    ensures
        got == 0 || got == n,
{
    let s = pieces_view(one);
    lemma_total_single(a, n);
    let k = choose|k: int| 0 <= k <= 1 && got == total_len(#[trigger] s.take(k));
    if k == 0 {
        assert(s.take(0) =~= Seq::<(int, int)>::empty());
    } else {
        assert(s.take(1) =~= s);
    }
}

proof fn lemma_total_prefix_bound(s: Seq<(int, int)>, k: int)
    requires
        0 <= k <= s.len(),
        forall|i: int| 0 <= i < s.len() ==> 0 < #[trigger] s[i].1,
    ensures
        total_len(s.take(k)) <= total_len(s),
    decreases s.len(),
{
    if k > 0 {
        assert(s.take(k).drop_first() =~= s.drop_first().take(k - 1));
        lemma_total_prefix_bound(s.drop_first(), k - 1);
    } else {
        lemma_total_nonneg(s);
    }
}

proof fn lemma_total_nonneg(s: Seq<(int, int)>)
    requires
        forall|i: int| 0 <= i < s.len() ==> 0 < #[trigger] s[i].1,
    ensures
        total_len(s) >= 0,
    decreases s.len(),
{
    if s.len() > 0 {
        lemma_total_nonneg(s.drop_first());
    }
}

} // verus!
