//! Representation of the internal status of a `Service`.
//!
//! A status is one of four lifecycle states. A flag keeps one status in a
//! cell that is shared between threads, as a raw code in an atomic integer,
//! read and written with sequentially consistent ordering only. What a read
//! returns depends on what any holder of the flag stored last, so a flag's
//! own operations promise nothing of the status read; what is proved is how
//! a status and its raw code are told from each other, and how one read is
//! judged, for every value that a read can return.

use std::sync::atomic::AtomicUsize;
use std::sync::atomic::Ordering;
use std::sync::Arc;
use vstd::prelude::*;
use vstd::std_specs::convert::FromSpecImpl;

verus! {

/// The possible statuses of a `Service`.
#[derive(Debug, Clone, Copy, PartialEq, Eq, Structural)]
pub enum ServiceStatus {
    Starting,
    Started,
    Stopping,
    Stopped,
}

impl ServiceStatus {
    /// The raw code under which a flag keeps this status.
    pub open spec fn code(self) -> usize {
        match self {
            ServiceStatus::Starting => 0x01,
            ServiceStatus::Started => 0x02,
            ServiceStatus::Stopping => 0x04,
            ServiceStatus::Stopped => 0x08,
        }
    }

    /// Whether `raw` is the code of one of the four statuses.
    pub open spec fn is_code(raw: usize) -> bool {
        raw == 0x01 || raw == 0x02 || raw == 0x04 || raw == 0x08
    }

    /// The status that a raw code stands for.
    ///
    /// A raw value that is the code of no status is a defect of the caller
    /// and has no status: it is excluded here. `checked_from` takes a value
    /// of unknown origin.
    pub fn from(raw_state: usize) -> (status: ServiceStatus)
        requires
            Self::is_code(raw_state),
        ensures
            status.code() == raw_state,
    {
        if raw_state == 0x01 {
            ServiceStatus::Starting
        } else if raw_state == 0x02 {
            ServiceStatus::Started
        } else if raw_state == 0x04 {
            ServiceStatus::Stopping
        } else {
            ServiceStatus::Stopped
        }
    }

    /// The status that `raw_state` stands for, or `None` where it is the
    /// code of none.
    pub fn checked_from(raw_state: usize) -> (decoded: Option<ServiceStatus>)
        ensures
            match decoded {
                Some(status) => status.code() == raw_state,
                None => !Self::is_code(raw_state),
            },
    {
        if raw_state == 0x01 || raw_state == 0x02 || raw_state == 0x04 || raw_state == 0x08 {
            Some(ServiceStatus::from(raw_state))
        } else {
            None
        }
    }
}

impl From<ServiceStatus> for usize {
    /// The raw code of `state`.
    fn from(state: ServiceStatus) -> (raw: usize)
        ensures
            raw == state.code(),
    {
        match state {
            ServiceStatus::Starting => 0x01,
            ServiceStatus::Started => 0x02,
            ServiceStatus::Stopping => 0x04,
            ServiceStatus::Stopped => 0x08,
        }
    }
}

impl FromSpecImpl<ServiceStatus> for usize {
    open spec fn obeys_from_spec() -> bool {
        true
    }

    open spec fn from_spec(state: ServiceStatus) -> usize {
        state.code()
    }
}

/// A raw value is a code exactly when some status is kept under it.
pub proof fn lemma_codes_are_the_encoded_statuses(raw: usize)
    ensures
        ServiceStatus::is_code(raw) <==> exists|status: ServiceStatus| #[trigger]
            status.code() == raw,
{
    if ServiceStatus::is_code(raw) {
        if raw == 0x01 {
            assert(ServiceStatus::Starting.code() == raw);
        } else if raw == 0x02 {
            assert(ServiceStatus::Started.code() == raw);
        } else if raw == 0x04 {
            assert(ServiceStatus::Stopping.code() == raw);
        } else {
            assert(ServiceStatus::Stopped.code() == raw);
        }
    }
}

/// No two statuses share a code.
pub proof fn lemma_code_is_injective(a: ServiceStatus, b: ServiceStatus)
    requires
        a.code() == b.code(),
    ensures
        a == b,
{
}

/// Decoding undoes encoding: the code of a status is a code, and the one
/// status that it stands for is that status. So a status that is stored and
/// read back unchanged is read back as itself.
pub proof fn lemma_decoding_inverts_encoding(status: ServiceStatus, decoded: Option<ServiceStatus>)
    requires
        match decoded {
            Some(other) => other.code() == status.code(),
            None => !ServiceStatus::is_code(status.code()),
        },
    ensures
        decoded == Some(status),
{
}

/// A flag that wraps the internal status of a `Service`, in a thread safe
/// envelope.
///
/// This should usually be stored as a field of a `Service` implementation.
/// A clone is another handle on the same cell: what one holder sets, every
/// holder gets, on whatever thread it runs. No transition is refused: any
/// status may follow any other.
#[derive(Debug, Clone)]
pub struct ServiceStatusFlag {
    flag: Arc<AtomicUsize>,
}

impl ServiceStatusFlag {
    /// Constructor: a flag with a cell of its own, which holds `status`.
    pub fn new(status: ServiceStatus) -> Self {
        ServiceStatusFlag { flag: Arc::new(AtomicUsize::new(usize::from(status))) }
    }

    /// Get the `ServiceStatus` wrapped by this flag at the moment of the
    /// call.
    ///
    /// It is `None` only where the cell holds a value that is the code of no
    /// status. The setters store nothing but codes, so that is a defect, and
    /// it is reported, not repaired.
    pub fn get_status(&self) -> Option<ServiceStatus> {
        ServiceStatus::checked_from(self.flag.load(Ordering::SeqCst))
    }

    /// Set the `ServiceStatus` wrapped by this flag, whatever it was.
    pub fn set_status(&self, status: ServiceStatus) {
        self.flag.store(usize::from(status), Ordering::SeqCst)
    }

    /// Set starting.
    ///
    /// Usually used by a `Service` at the beginning of the `start()` method:
    /// the `Service` hasn't started yet, but it's going through its launch
    /// sequence.
    pub fn starting(&self) {
        self.set_status(ServiceStatus::Starting)
    }

    /// Set started.
    ///
    /// Usually used by a `Service` at the end of the `start()` logic. If
    /// `start()` spawns a thread, this should be called at the end of that
    /// thread, not sooner.
    pub fn started(&self) {
        self.set_status(ServiceStatus::Started)
    }

    /// Set stopping.
    ///
    /// Usually used by a `Service` at the beginning of the `stop()` method:
    /// the `Service` hasn't stopped yet, but it's going through its shutdown
    /// sequence.
    pub fn stopping(&self) {
        self.set_status(ServiceStatus::Stopping)
    }

    /// Set stopped.
    ///
    /// Usually used by a `Service` at the end of the `stop()` logic. If
    /// `stop()` has to wait for a thread to end, this should be called after
    /// that, not sooner.
    pub fn stopped(&self) {
        self.set_status(ServiceStatus::Stopped)
    }

    /// Is it starting?
    pub fn is_starting(&self) -> bool {
        ServiceStatus::Starting.found_in(self.get_status())
    }

    /// Is it started?
    pub fn is_started(&self) -> bool {
        ServiceStatus::Started.found_in(self.get_status())
    }

    /// Is it stopping?
    pub fn is_stopping(&self) -> bool {
        ServiceStatus::Stopping.found_in(self.get_status())
    }

    /// Is it stopped?
    pub fn is_stopped(&self) -> bool {
        ServiceStatus::Stopped.found_in(self.get_status())
    }
}

impl Default for ServiceStatusFlag {
    /// Creates a `ServiceStatusFlag` that is stopped: a predictable default.
    fn default() -> Self {
        ServiceStatusFlag::new(ServiceStatus::Stopped)
    }
}

impl ServiceStatus {
    /// Whether a read of a flag found this status in it, where `observed` is
    /// what the read gave: so it is for this status itself, and for no other
    /// status and no defect.
    ///
    /// What a flag holds is decided by whoever set it last, on whatever
    /// thread. Each predicate of a flag is one read, judged here.
    pub fn found_in(self, observed: Option<ServiceStatus>) -> (found: bool)
        ensures
            found == (observed == Some(self)),
    {
        observed == Some(self)
    }
}

/// One read finds at most one status: two statuses found in the same read are
/// the same status, so of the four predicates of a flag no two hold of one
/// read.
pub proof fn lemma_one_read_one_status(
    first: ServiceStatus,
    second: ServiceStatus,
    observed: Option<ServiceStatus>,
)
    requires
        observed == Some(first),
        observed == Some(second),
    ensures
        first == second,
{
}

} // verus!
