//! Errors of I/O operations.

use vstd::prelude::*;

verus! {

/// What kind of failure an error stands for.
#[derive(Debug, Clone, Copy, PartialEq, Eq, Structural)]
pub enum ErrorKind {
    Os,
    InvalidData,
    InvalidInput,
    OutOfMemory,
    Unsupported,
    Other,
}

/// Why an I/O operation failed.
#[derive(Debug, Clone, Copy, PartialEq, Eq, Structural)]
pub enum IoError {
    /// The operating system's error number.
    Os(i32),
    /// Too few bytes for a socket address.
    InvalidAddressLength,
    /// Neither an IPv4 nor an IPv6 address.
    UnsupportedAddressFamily,
    /// A host that resolves to no address.
    NoAddress,
    /// The submission queue has no room for a message to another ring.
    SubmissionQueueFull,
    /// The submission queue has no room for work that nobody waits for.
    BackgroundQueueFull,
    /// An operation that cannot run in the background.
    BackgroundOnlyClose,
    /// The pool has no buffer left.
    NoBuffer,
    /// A handle that is not registered.
    NotRegistered,
    /// A buffer that is too small for a connection's names.
    AcceptBufferTooSmall,
    /// A socket that connects and is known by its registration alone.
    InvalidSocket,
    /// A socket that accepts and is known by its registration alone.
    InvalidListenSocket,
    /// The worker threads take no more work.
    Overloaded,
    /// A runtime without workers.
    NoWorkers,
}

impl IoError {
    pub open spec fn kind_of(self) -> ErrorKind {
        match self {
            IoError::Os(_) => ErrorKind::Os,
            IoError::InvalidAddressLength | IoError::UnsupportedAddressFamily => ErrorKind::InvalidData,
            IoError::NoAddress | IoError::NotRegistered
            | IoError::AcceptBufferTooSmall | IoError::NoWorkers => ErrorKind::InvalidInput,
            IoError::NoBuffer => ErrorKind::OutOfMemory,
            IoError::BackgroundOnlyClose => ErrorKind::Unsupported,
            IoError::SubmissionQueueFull | IoError::BackgroundQueueFull | IoError::InvalidSocket
            | IoError::InvalidListenSocket | IoError::Overloaded => ErrorKind::Other,
        }
    }

    pub fn kind(&self) -> (kind: ErrorKind)
        ensures
            kind == self.kind_of(),
    {
        match self {
            IoError::Os(_) => ErrorKind::Os,
            IoError::InvalidAddressLength | IoError::UnsupportedAddressFamily => ErrorKind::InvalidData,
            IoError::NoAddress | IoError::NotRegistered
            | IoError::AcceptBufferTooSmall | IoError::NoWorkers => ErrorKind::InvalidInput,
            IoError::NoBuffer => ErrorKind::OutOfMemory,
            IoError::BackgroundOnlyClose => ErrorKind::Unsupported,
            IoError::SubmissionQueueFull | IoError::BackgroundQueueFull | IoError::InvalidSocket
            | IoError::InvalidListenSocket | IoError::Overloaded => ErrorKind::Other,
        }
    }

    /// The error in words. The operating system has its own for its errors.
    pub open spec fn words(self) -> Option<Seq<char>> {
        match self {
            IoError::Os(_) => None,
            IoError::InvalidAddressLength => Some("Invalid address length"@),
            IoError::UnsupportedAddressFamily => Some("Unsupported address family"@),
            IoError::NoAddress => Some("No address provided"@),
            IoError::SubmissionQueueFull => Some("SQ full"@),
            IoError::BackgroundQueueFull => Some("sq full"@),
            IoError::BackgroundOnlyClose => Some("background op only supports Close"@),
            IoError::NoBuffer => Some("buf pool exhausted"@),
            IoError::NotRegistered => Some("Invalid registered file descriptor"@),
            IoError::AcceptBufferTooSmall => Some("Accept buffer too small for AcceptEx"@),
            IoError::InvalidSocket => Some("Invalid socket fd"@),
            IoError::InvalidListenSocket => Some("Invalid listen socket fd"@),
            IoError::Overloaded => Some("Thread pool overloaded"@),
            IoError::NoWorkers => Some("Worker count must be > 0"@),
        }
    }

    pub fn message(&self) -> (message: Option<&'static str>)
        ensures
            match message {
                Some(text) => self.words() == Some(text@),
                None => self.words() is None,
            },
    {
        match self {
            IoError::Os(_) => None,
            IoError::InvalidAddressLength => Some("Invalid address length"),
            IoError::UnsupportedAddressFamily => Some("Unsupported address family"),
            IoError::NoAddress => Some("No address provided"),
            IoError::SubmissionQueueFull => Some("SQ full"),
            IoError::BackgroundQueueFull => Some("sq full"),
            IoError::BackgroundOnlyClose => Some("background op only supports Close"),
            IoError::NoBuffer => Some("buf pool exhausted"),
            IoError::NotRegistered => Some("Invalid registered file descriptor"),
            IoError::AcceptBufferTooSmall => Some("Accept buffer too small for AcceptEx"),
            IoError::InvalidSocket => Some("Invalid socket fd"),
            IoError::InvalidListenSocket => Some("Invalid listen socket fd"),
            IoError::Overloaded => Some("Thread pool overloaded"),
            IoError::NoWorkers => Some("Worker count must be > 0"),
        }
    }
}

/// The outcome that a kernel result stands for: a count, or the negated error
/// number.
pub open spec fn kernel_outcome(result: i32) -> Result<usize, IoError> {
    if result >= 0 {
        Ok(result as usize)
    } else {
        Err(IoError::Os((-result) as i32))
    }
}

/// Reads a kernel result.
pub fn from_kernel(result: i32) -> (outcome: Result<usize, IoError>)
    requires
        result > i32::MIN,
    ensures
        outcome == kernel_outcome(result),
        result >= 0 ==> (outcome matches Ok(n) && n as int == result as int),
        result < 0 ==> (outcome matches Err(IoError::Os(number)) && number + result == 0),
{
    if result >= 0 {
        Ok(result as usize)
    } else {
        Err(IoError::Os(-result))
    }
}

/// A kernel result is a success exactly where it is not negative, zero included, and
/// then counts what it says. A negative one is the error whose number is its opposite.
pub proof fn lemma_kernel_results(result: i32)
    requires
        result > i32::MIN,
    ensures
        kernel_outcome(result) is Ok <==> result >= 0,
        kernel_outcome(result) matches Ok(n) ==> n as int == result as int,
        kernel_outcome(result) matches Err(e) ==> (e matches IoError::Os(number) && number + result == 0),
{
}

/// Different kernel results have different outcomes.
pub proof fn lemma_kernel_results_differ(a: i32, b: i32)
    requires
        a > i32::MIN,
        b > i32::MIN,
        kernel_outcome(a) == kernel_outcome(b),
    ensures
        a == b,
{
}

/// Every error has the kind of what went wrong: a number of the system's, bytes that
/// mean nothing, an argument that was refused, a lack of memory, or something that is
/// not supported.
pub proof fn lemma_kinds(e: IoError)
    ensures
        e.kind_of() is Os <==> e is Os,
        e.kind_of() is InvalidData <==> e is InvalidAddressLength || e is UnsupportedAddressFamily,
        e.kind_of() is InvalidInput <==> e is NoAddress || e is NotRegistered || e is AcceptBufferTooSmall
            || e is NoWorkers,
        e.kind_of() is OutOfMemory <==> e is NoBuffer,
        e.kind_of() is Unsupported <==> e is BackgroundOnlyClose,
        e.kind_of() is Other <==> e is SubmissionQueueFull || e is BackgroundQueueFull || e is InvalidSocket
            || e is InvalidListenSocket || e is Overloaded,
{
}

/// Every error but the system's has words, and no two have the same.
pub proof fn lemma_words_tell_apart(a: IoError, b: IoError)
    ensures
        a.words() is None <==> a is Os,
        a.words() is Some && a.words() == b.words() ==> a == b,
{
    reveal_strlit("Invalid address length");
    reveal_strlit("Unsupported address family");
    reveal_strlit("No address provided");
    reveal_strlit("SQ full");
    reveal_strlit("sq full");
    reveal_strlit("background op only supports Close");
    reveal_strlit("buf pool exhausted");
    reveal_strlit("Invalid registered file descriptor");
    reveal_strlit("Accept buffer too small for AcceptEx");
    reveal_strlit("Invalid socket fd");
    reveal_strlit("Invalid listen socket fd");
    reveal_strlit("Thread pool overloaded");
    reveal_strlit("Worker count must be > 0");
    if a.words() is Some && b.words() is Some && a.words() == b.words() {
        let (v, w) = (a.words()->0, b.words()->0);
        assert(v.len() == w.len() && v[0] == w[0] && v[3] == w[3]);
    }
}

} // verus!
