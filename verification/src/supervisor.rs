//! The serverless subprocess supervisor's decisions: reading the advertised
//! socket address off the child's first stdout line, and resolving the local
//! downstream once the child is ready. Spawning the child and the line reads
//! happen in the runtime; the judgments are made here.

use vstd::prelude::*;
use vstd::string::StrSliceExecFns;

use crate::connector::TcpConnector;

verus! {

/// Why supervision fails.
#[derive(Clone, Copy, Debug, PartialEq, Eq, Structural)]
pub enum SupervisorError {
    /// The child exited, or closed stdout, before announcing an address.
    NoAddressLine,
    /// The announced address was empty after trimming.
    EmptyAddress,
    /// No request can be forwarded before the child announces its address.
    NotStarted,
}

/// ASCII whitespace, the characters trimmed off the address line.
pub open spec fn is_ws(c: char) -> bool {
    c == ' ' || c == '\t' || c == '\r' || c == '\n'
}

/// The line without leading whitespace.
pub open spec fn trim_start(s: Seq<char>) -> Seq<char>
    decreases s.len(),
{
    if s.len() > 0 && is_ws(s.first()) {
        trim_start(s.drop_first())
    } else {
        s
    }
}

/// The line without trailing whitespace.
pub open spec fn trim_end(s: Seq<char>) -> Seq<char>
    decreases s.len(),
{
    if s.len() > 0 && is_ws(s.last()) {
        trim_end(s.drop_last())
    } else {
        s
    }
}

/// The line without whitespace on either side.
pub open spec fn spec_trim(s: Seq<char>) -> Seq<char> {
    trim_end(trim_start(s))
}

/// Leading whitespace up to the first other character is what `trim_start`
/// removes.
proof fn lemma_trim_start(s: Seq<char>, i: int)
    requires
        0 <= i <= s.len(),
        forall|j: int| 0 <= j < i ==> is_ws(#[trigger] s[j]),
        i < s.len() ==> !is_ws(s[i]),
    ensures
        trim_start(s) == s.subrange(i, s.len() as int),
    decreases i,
{
    if i == 0 {
        if s.len() > 0 {
            assert(!is_ws(s.first()));
        }
        assert(s.subrange(0, s.len() as int) =~= s);
    } else {
        assert(is_ws(s.first()));
        let d = s.drop_first();
        assert(forall|j: int| 0 <= j < i - 1 ==> #[trigger] d[j] == s[j + 1]);
        assert(i - 1 < d.len() ==> !is_ws(d[i - 1]));
        lemma_trim_start(d, i - 1);
        assert(d.subrange(i - 1, d.len() as int) =~= s.subrange(i, s.len() as int));
    }
}

/// Trailing whitespace after the last other character is what `trim_end`
/// removes.
proof fn lemma_trim_end(s: Seq<char>, i: int)
    requires
        0 <= i <= s.len(),
        forall|j: int| i <= j < s.len() ==> is_ws(#[trigger] s[j]),
        i > 0 ==> !is_ws(s[i - 1]),
    ensures
        trim_end(s) == s.subrange(0, i),
    decreases s.len() - i,
{
    if i == s.len() {
        if s.len() > 0 {
            assert(!is_ws(s.last()));
        }
        assert(s.subrange(0, s.len() as int) =~= s);
    } else {
        assert(is_ws(s.last()));
        let d = s.drop_last();
        assert(forall|j: int| 0 <= j < d.len() ==> #[trigger] d[j] == s[j]);
        lemma_trim_end(d, i);
        assert(d.subrange(0, i) =~= s.subrange(0, i));
    }
}

/// Index of the first character that is not ASCII whitespace.
fn scan_start(s: &str) -> (r: usize)
    ensures
        r <= s@.len(),
        forall|j: int| 0 <= j < r ==> is_ws(#[trigger] s@[j]),
        r < s@.len() ==> !is_ws(s@[r as int]),
{
    let n = s.unicode_len();
    let mut i: usize = 0;
    while i < n
        invariant
            n == s@.len(),
            i <= n,
            forall|j: int| 0 <= j < i ==> is_ws(#[trigger] s@[j]),
        decreases n - i,
    {
        let c = s.get_char(i);
        if !(c == ' ' || c == '\t' || c == '\r' || c == '\n') {
            return i;
        }
        i = i + 1;
    }
    n
}

/// Index just past the last character, from `start` on, that is not ASCII
/// whitespace.
fn scan_end(s: &str, start: usize) -> (r: usize)
    requires
        start <= s@.len(),
    ensures
        start <= r <= s@.len(),
        forall|j: int| r <= j < s@.len() ==> is_ws(#[trigger] s@[j]),
        r > start ==> !is_ws(s@[r - 1]),
{
    let n = s.unicode_len();
    let mut end: usize = n;
    while end > start
        invariant
            n == s@.len(),
            start <= end <= n,
            forall|j: int| end <= j < n ==> is_ws(#[trigger] s@[j]),
        decreases end,
    {
        let c = s.get_char(end - 1);
        if !(c == ' ' || c == '\t' || c == '\r' || c == '\n') {
            return end;
        }
        end = end - 1;
    }
    start
}

/// Trim ASCII whitespace off both ends of a line.
pub fn trim_line(line: &String) -> (r: String)
    ensures
        r@ == spec_trim(line@),
{
    let s = line.as_str();
    let n = s.unicode_len();
    let start = scan_start(s);
    proof {
        lemma_trim_start(line@, start as int);
    }
    let ghost trimmed_start = line@.subrange(start as int, n as int);
    let end = scan_end(s, start);
    proof {
        assert(forall|j: int|
            end - start <= j < trimmed_start.len() ==> is_ws(#[trigger] trimmed_start[j]));
        assert(end - start > 0 ==> !is_ws(trimmed_start[end - start - 1]));
        lemma_trim_end(trimmed_start, end - start);
        assert(trimmed_start.subrange(0, end - start) =~= line@.subrange(
            start as int,
            end as int,
        ));
    }
    s.substring_char(start, end).to_owned()
}

/// Judge the child's first stdout line: zero bytes read means the child died
/// silently; otherwise the line, trimmed, is the advertised socket address,
/// and an empty one is fatal.
pub fn parse_advertised_addr(line: &String, bytes_read: usize) -> (r: Result<
    String,
    SupervisorError,
>)
    ensures
        match r {
            Ok(addr) => bytes_read > 0 && addr@ == spec_trim(line@) && addr@.len() > 0,
            Err(e) => {
                &&& (bytes_read == 0 || spec_trim(line@).len() == 0)
                &&& e == (if bytes_read == 0 {
                    SupervisorError::NoAddressLine
                } else {
                    SupervisorError::EmptyAddress
                })
            },
        },
{
    if bytes_read == 0 {
        return Err(SupervisorError::NoAddressLine);
    }
    let addr = trim_line(line);
    if addr.as_str().unicode_len() == 0 {
        return Err(SupervisorError::EmptyAddress);
    }
    Ok(addr)
}

/// The supervisor's view of the child: the advertised address, once known.
#[derive(Clone, Debug)]
pub struct ServerlessHandler {
    socket_addr: Option<String>,
}

impl ServerlessHandler {
    /// The advertised address, if the child has announced one.
    pub closed spec fn addr_view(&self) -> Option<Seq<char>> {
        match self.socket_addr {
            Some(a) => Some(a@),
            None => None,
        }
    }

    /// A handler whose child has not announced an address yet.
    pub fn new() -> (r: ServerlessHandler)
        ensures
            r.addr_view() is None,
    {
        ServerlessHandler { socket_addr: None }
    }

    /// Publish the advertised address.
    pub fn set_address(&mut self, addr: String)
        ensures
            final(self).addr_view() == Some(addr@),
    {
        self.socket_addr = Some(addr);
    }

    /// The downstream of one inbound stream: a TCP connector to the child's
    /// socket, or a refusal while the child is not ready.
    pub fn connector(&self) -> (r: Result<TcpConnector, SupervisorError>)
        ensures
            match r {
                Ok(c) => self.addr_view() == Some(c.addr_view()),
                Err(e) => self.addr_view() is None && e == SupervisorError::NotStarted,
            },
    {
        match &self.socket_addr {
            Some(addr) => Ok(TcpConnector::new(addr.as_str())),
            None => Err(SupervisorError::NotStarted),
        }
    }
}

} // verus!
