//! Daemon-level helpers: the error type, the backend filesystem kind and the
//! validation of the worker thread count option.

use vstd::prelude::*;
use vstd::string::StrSliceExecFns;
use vstd::string::StringExecFns;

verus! {

/// Errors reported by the daemon-level helpers.
#[derive(Debug)]
pub enum Error {
    /// The object or filesystem already exists.
    AlreadyExists,
    /// Invalid arguments provided.
    InvalidArguments(String),
    /// Invalid configuration.
    InvalidConfig(String),
    /// Invalid prefetch file list.
    InvalidPrefetchList,
    /// The object or filesystem does not exist.
    NotFound,
    /// The daemon is not ready yet.
    NotReady,
    /// Unsupported request or operation.
    Unsupported,
    /// Failed to start a service.
    StartService(String),
    /// Filesystem type mismatch, carrying the expected type.
    FsTypeMismatch(String),
    /// The vhost-user transport failed to process a request.
    VhostUser(String),
    /// An event other than an input event was received.
    HandleEventNotEpollIn,
    /// An unknown event was received.
    HandleEventUnknownEvent,
    /// Failed to walk a descriptor chain.
    IterateQueue,
    /// Missing memory configuration for a virtio queue.
    QueueMemoryUnset,
}

/// Type of supported backend filesystems.
#[derive(Clone, Copy, Debug, PartialEq, Eq, Structural)]
pub enum FsBackendType {
    /// Registry Accelerated File System.
    Rafs,
    /// Share an underlying directory as a FUSE filesystem.
    PassthroughFs,
}

/// The backend type that a textual name denotes, if any.
pub open spec fn backend_type_of(s: Seq<char>) -> Option<FsBackendType> {
    if s == "rafs"@ {
        Some(FsBackendType::Rafs)
    } else if s == "passthrough"@ || s == "passthroughfs"@ || s == "passthrough_fs"@ {
        Some(FsBackendType::PassthroughFs)
    } else {
        None
    }
}

/// The display name of a backend type.
pub open spec fn backend_type_name(t: FsBackendType) -> Seq<char> {
    match t {
        FsBackendType::Rafs => "Rafs"@,
        FsBackendType::PassthroughFs => "PassthroughFs"@,
    }
}

/// Character-wise equality of two strings.
pub(crate) fn same_text(a: &str, b: &str) -> (r: bool)
    ensures
        r == (a@ == b@),
{
    let n = a.unicode_len();
    let m = b.unicode_len();
    if n != m {
        return false;
    }
    let mut i: usize = 0;
    while i < n
        invariant
            n == a@.len(),
            m == b@.len(),
            n == m,
            i <= n,
            forall|k: int| 0 <= k < i ==> a@[k] == b@[k],
        decreases n - i,
    {
        if a.get_char(i) != b.get_char(i) {
            return false;
        }
        i += 1;
    }
    assert(a@ =~= b@);
    true
}

impl FsBackendType {
    /// Parses the textual name of a backend filesystem type.
    pub fn parse_name(s: &str) -> (r: Result<FsBackendType, Error>)
        ensures
            match r {
                Ok(t) => backend_type_of(s@) == Some(t),
                Err(e) => backend_type_of(s@).is_none() && (e matches Error::InvalidArguments(msg)
                    && msg@ == "only 'rafs' and 'passthrough_fs' are supported, but "@ + s@
                    + " was specified"@),
            },
    {
        if same_text(s, "rafs") {
            Ok(FsBackendType::Rafs)
        } else if same_text(s, "passthrough") || same_text(s, "passthroughfs") || same_text(
            s,
            "passthrough_fs",
        ) {
            Ok(FsBackendType::PassthroughFs)
        } else {
            let mut msg = String::from_str("only 'rafs' and 'passthrough_fs' are supported, but ");
            msg.append(s);
            msg.append(" was specified");
            Err(Error::InvalidArguments(msg))
        }
    }

    /// The display name of the backend type.
    pub fn to_string(&self) -> (r: String)
        ensures
            r@ == backend_type_name(*self),
    {
        match self {
            FsBackendType::Rafs => String::from_str("Rafs"),
            FsBackendType::PassthroughFs => String::from_str("PassthroughFs"),
        }
    }
}

impl std::str::FromStr for FsBackendType {
    type Err = Error;

    fn from_str(s: &str) -> Result<FsBackendType, Error> {
        FsBackendType::parse_name(s)
    }
}

/// Whether a character is an ASCII decimal digit.
pub open spec fn is_digit(c: char) -> bool {
    '0' <= c && c <= '9'
}

/// The value of a digit character.
pub open spec fn digit_value(c: char) -> nat {
    (c as int - '0' as int) as nat
}

/// The value of a sequence of decimal digits, most significant first.
pub open spec fn digits_value(s: Seq<char>) -> nat
    decreases s.len(),
{
    if s.len() == 0 {
        0
    } else {
        digits_value(s.drop_last()) * 10 + digit_value(s.last())
    }
}

/// The digits of an unsigned number: an optional leading `+` is dropped.
pub open spec fn unsigned_digits(s: Seq<char>) -> Seq<char> {
    if s.len() > 0 && s[0] == '+' {
        s.skip(1)
    } else {
        s
    }
}

/// The `usize` that a string denotes in decimal, if any: an optional `+`, then
/// at least one digit and nothing else, with a value that fits in `usize`.
pub open spec fn parsed_usize(s: Seq<char>) -> Option<nat> {
    if unsigned_digits(s).len() > 0 && all_digits(unsigned_digits(s)) && digits_value(
        unsigned_digits(s),
    ) <= usize::MAX {
        Some(digits_value(unsigned_digits(s)))
    } else {
        None
    }
}

/// Whether every character of a sequence is a decimal digit.
pub open spec fn all_digits(d: Seq<char>) -> bool {
    forall|i: int| 0 <= i < d.len() ==> is_digit(#[trigger] d[i])
}

proof fn lemma_digits_prefix_le(s: Seq<char>, k: int)
    requires
        0 <= k <= s.len(),
        forall|i: int| 0 <= i < s.len() ==> is_digit(#[trigger] s[i]),
    ensures
        digits_value(s.subrange(0, k)) <= digits_value(s),
    decreases s.len(),
{
    if k < s.len() {
        let p = s.drop_last();
        assert(p.subrange(0, k) =~= s.subrange(0, k));
        lemma_digits_prefix_le(p, k);
    } else {
        assert(s.subrange(0, k) =~= s);
    }
}

/// Parses a decimal `usize` the way `str::parse::<usize>` does.
fn parse_usize(s: &str) -> (r: Option<usize>)
    ensures
        match r {
            Some(v) => parsed_usize(s@) == Some(v as nat),
            None => parsed_usize(s@).is_none(),
        },
{
    let n = s.unicode_len();
    let mut i: usize = 0;
    if n > 0 && s.get_char(0) == '+' {
        i = 1;
    }
    let start = i;
    let ghost d = unsigned_digits(s@);
    assert(d =~= s@.subrange(start as int, n as int));
    if start == n {
        return None;
    }
    let mut value: usize = 0;
    while i < n
        invariant
            n == s@.len(),
            start <= i <= n,
            d == unsigned_digits(s@),
            d =~= s@.subrange(start as int, n as int),
            forall|k: int| start <= k < i ==> is_digit(#[trigger] s@[k]),
            value == digits_value(s@.subrange(start as int, i as int)),
        decreases n - i,
    {
        let c = s.get_char(i);
        if !('0' <= c && c <= '9') {
            assert(!is_digit(d[i - start]));
            assert(!all_digits(d));
            return None;
        }
        let dv = (c as u32 - '0' as u32) as usize;
        let ghost pre = s@.subrange(start as int, i as int);
        let ghost next = s@.subrange(start as int, i + 1);
        assert(next.drop_last() =~= pre);
        assert(digits_value(next) == digits_value(pre) * 10 + dv);
        if value > (usize::MAX - dv) / 10 {
            assert(value * 10 + dv > usize::MAX) by (nonlinear_arith)
                requires
                    value > (usize::MAX - dv) / 10,
                    dv <= 9,
            ;
            // Either a later character is not a digit, or the whole value is
            // at least this prefix's value.
            proof {
                if all_digits(d) {
                    assert(d.subrange(0, i + 1 - start) =~= next);
                    lemma_digits_prefix_le(d, i + 1 - start);
                }
            }
            return None;
        }
        assert(value * 10 + dv <= usize::MAX) by (nonlinear_arith)
            requires
                value <= (usize::MAX - dv) / 10,
                dv <= 9,
        ;
        value = value * 10 + dv;
        i += 1;
    }
    assert(s@.subrange(start as int, n as int) =~= d);
    Some(value)
}

/// The decimal character of a digit value.
pub open spec fn digit_char(d: nat) -> char {
    (d + '0' as int) as char
}

/// The decimal text of a number, without leading zeros.
pub open spec fn decimal_text(n: nat) -> Seq<char>
    decreases n,
{
    if n < 10 {
        seq![digit_char(n)]
    } else {
        decimal_text(n / 10).push(digit_char(n % 10))
    }
}

/// The one-character text of a digit.
fn digit_str(d: usize) -> (r: &'static str)
    requires
        d < 10,
    ensures
        r@ == seq![digit_char(d as nat)],
{
    proof {
        reveal_strlit("0");
        reveal_strlit("1");
        reveal_strlit("2");
        reveal_strlit("3");
        reveal_strlit("4");
        reveal_strlit("5");
        reveal_strlit("6");
        reveal_strlit("7");
        reveal_strlit("8");
        reveal_strlit("9");
    }
    match d {
        0 => "0",
        1 => "1",
        2 => "2",
        3 => "3",
        4 => "4",
        5 => "5",
        6 => "6",
        7 => "7",
        8 => "8",
        _ => "9",
    }
}

/// Appends the decimal text of `n` to `s`.
fn push_decimal(s: &mut String, n: usize)
    ensures
        final(s)@ == old(s)@ + decimal_text(n as nat),
    decreases n,
{
    if n >= 10 {
        push_decimal(s, n / 10);
    }
    s.append(digit_str(n % 10));
    proof {
        if n >= 10 {
            assert(decimal_text(n as nat) == decimal_text((n / 10) as nat).push(digit_char((n % 10) as nat)));
        }
    }
    assert(s@ =~= old(s)@ + decimal_text(n as nat));
}

/// Whether a thread count lies in the accepted range `[1, 1024]`.
pub open spec fn valid_thread_count(t: nat) -> bool {
    1 <= t && t <= 1024
}

/// Validates the thread number configuration; the valid range is `[1-1024]`.
pub fn validate_threads_configuration(v: &str) -> (r: Result<usize, String>)
    ensures
        match r {
            Ok(t) => parsed_usize(v@) == Some(t as nat) && valid_thread_count(t as nat),
            Err(msg) => match parsed_usize(v@) {
                Some(t) => !valid_thread_count(t) && msg@ == "invalid thread number "@ + decimal_text(t)
                    + ", valid range: [1-1024]"@,
                None => msg@ == "invalid thread number configuration: "@ + v@,
            },
        },
{
    match parse_usize(v) {
        Some(t) => {
            if t > 0 && t <= 1024 {
                Ok(t)
            } else {
                let mut msg = String::from_str("invalid thread number ");
                push_decimal(&mut msg, t);
                msg.append(", valid range: [1-1024]");
                Err(msg)
            }
        },
        None => {
            let mut msg = String::from_str("invalid thread number configuration: ");
            msg.append(v);
            Err(msg)
        },
    }
}

} // verus!
