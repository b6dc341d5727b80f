//! The SFN client's decisions: the zipper address parse, the handshake it
//! sends, the check of the response, and what each accept-loop event demands.
//!
//! Dialing, streams and tasks live in the runtime outside the library; it
//! performs what these functions decide.

use vstd::prelude::*;
use vstd::string::StrSliceExecFns;

use crate::tls::TlsConfig;
use crate::types::{HandshakeRequest, HandshakeResponse};

verus! {

/// Why the SFN client gives up.
#[derive(Clone, Debug, PartialEq, Eq, Structural)]
pub enum SfnError {
    /// The zipper address has no `host:port` shape.
    InvalidZipperAddr,
    /// The part after the colon is not a port number.
    InvalidPort,
    /// The zipper refused the handshake with this status.
    HandshakeRefused { status_code: u16 },
}

/// A decimal digit.
pub open spec fn is_digit(c: char) -> bool {
    48 <= c as u32 <= 57
}

/// The value of one digit.
pub open spec fn digit_val(c: char) -> int {
    c as u32 - 48
}

/// Every character is a digit.
pub open spec fn all_digits(s: Seq<char>) -> bool {
    forall|i: int| 0 <= i < s.len() ==> is_digit(#[trigger] s[i])
}

/// The decimal value of a digit string.
pub open spec fn digits_val(s: Seq<char>) -> int
    decreases s.len(),
{
    if s.len() == 0 {
        0
    } else {
        digits_val(s.drop_last()) * 10 + digit_val(s.last())
    }
}

/// Position of the first colon, if any.
pub open spec fn first_colon(s: Seq<char>) -> Option<int>
    decreases s.len(),
{
    if s.len() == 0 {
        None
    } else if s[0] == ':' {
        Some(0)
    } else {
        match first_colon(s.drop_first()) {
            Some(i) => Some(i + 1),
            None => None,
        }
    }
}

/// The first colon is a colon with none before it.
pub proof fn lemma_first_colon(s: Seq<char>)
    ensures
        match first_colon(s) {
            Some(i) => 0 <= i < s.len() && s[i] == ':' && forall|j: int| 0 <= j < i ==> s[j] != ':',
            None => forall|j: int| 0 <= j < s.len() ==> s[j] != ':',
        },
    decreases s.len(),
{
    if s.len() > 0 && s[0] != ':' {
        let d = s.drop_first();
        lemma_first_colon(d);
        assert(forall|j: int| 0 <= j < d.len() ==> #[trigger] d[j] == s[j + 1]);
        match first_colon(s) {
            Some(i) => {
                assert(d[i - 1] == s[i]);
                assert forall|j: int| 0 <= j < i implies s[j] != ':' by {
                    if j > 0 {
                        assert(d[j - 1] == s[j]);
                    }
                }
            },
            None => {
                assert forall|j: int| 0 <= j < s.len() implies s[j] != ':' by {
                    if j > 0 {
                        assert(d[j - 1] == s[j]);
                    }
                }
            },
        }
    }
}

/// A `host:port` address: the part before the first colon, and the decimal
/// port after it.
pub open spec fn spec_parse_addr(s: Seq<char>) -> Option<(Seq<char>, u16)> {
    match first_colon(s) {
        Some(i) => {
            let port_part = s.subrange(i + 1, s.len() as int);
            if port_part.len() > 0 && all_digits(port_part) && digits_val(port_part) <= 65535 {
                Some((s.subrange(0, i), digits_val(port_part) as u16))
            } else {
                None
            }
        },
        None => None,
    }
}

/// A digit string's value is at least zero.
proof fn lemma_digits_val_nonneg(s: Seq<char>)
    requires
        all_digits(s),
    ensures
        digits_val(s) >= 0,
    decreases s.len(),
{
    if s.len() > 0 {
        assert(all_digits(s.drop_last())) by {
            assert(forall|i: int| 0 <= i < s.len() - 1 ==> s.drop_last()[i] == s[i]);
        }
        lemma_digits_val_nonneg(s.drop_last());
    }
}

/// A digit string is worth at least any of its prefixes.
proof fn lemma_digits_val_prefix(s: Seq<char>, i: int)
    requires
        all_digits(s),
        0 <= i <= s.len(),
    ensures
        digits_val(s.subrange(0, i)) <= digits_val(s),
    decreases s.len() - i,
{
    if i == s.len() {
        assert(s.subrange(0, i) =~= s);
    } else {
        let p = s.subrange(0, i);
        let q = s.subrange(0, i + 1);
        assert(q.drop_last() =~= p);
        assert(all_digits(p)) by {
            assert(forall|j: int| 0 <= j < i ==> p[j] == s[j]);
        }
        lemma_digits_val_nonneg(p);
        assert(digits_val(q) == digits_val(p) * 10 + digit_val(s[i]));
        lemma_digits_val_prefix(s, i + 1);
    }
}

/// Find the first colon of a string.
fn find_colon(s: &str) -> (r: Option<usize>)
    ensures
        match r {
            Some(i) => i < s@.len() && s@[i as int] == ':' && forall|j: int|
                0 <= j < i ==> s@[j] != ':',
            None => forall|j: int| 0 <= j < s@.len() ==> s@[j] != ':',
        },
{
    let n = s.unicode_len();
    let mut i: usize = 0;
    while i < n
        invariant
            n == s@.len(),
            i <= n,
            forall|j: int| 0 <= j < i ==> s@[j] != ':',
        decreases n - i,
    {
        if s.get_char(i) == ':' {
            return Some(i);
        }
        i = i + 1;
    }
    None
}

/// Parse a zipper address of the shape `host:port`: the host is everything
/// before the first colon, the port the decimal number after it.
pub fn parse_zipper_addr(addr: &String) -> (r: Result<(String, u16), SfnError>)
    ensures
        match r {
            Ok(parsed) => spec_parse_addr(addr@) == Some((parsed.0@, parsed.1)),
            Err(e) => spec_parse_addr(addr@) is None && e == (
            if first_colon(addr@) is None {
                SfnError::InvalidZipperAddr
            } else {
                SfnError::InvalidPort
            }),
        },
{
    let s = addr.as_str();
    let n = s.unicode_len();
    proof {
        lemma_first_colon(addr@);
    }
    let colon = match find_colon(s) {
        Some(i) => i,
        None => {
            proof {
                if first_colon(addr@) is Some {
                    let i = first_colon(addr@).unwrap();
                    assert(addr@[i] == ':');
                }
            }
            return Err(SfnError::InvalidZipperAddr);
        },
    };
    proof {
        let fc = first_colon(addr@);
        if fc is None {
            assert(addr@[colon as int] == ':');
        }
        let i0 = fc.unwrap();
        if i0 < colon {
            assert(addr@[i0] == ':');
        }
        if colon < i0 {
            assert(addr@[colon as int] != ':');
        }
        assert(i0 == colon);
    }
    let ghost port_part = addr@.subrange(colon + 1, addr@.len() as int);
    if colon + 1 == n {
        return Err(SfnError::InvalidPort);
    }
    let mut val: u32 = 0;
    let mut j: usize = colon + 1;
    while j < n
        invariant
            s@ == addr@,
            n == addr@.len(),
            colon < n,
            first_colon(addr@) == Some(colon as int),
            colon + 1 <= j <= n,
            port_part == addr@.subrange(colon + 1, n as int),
            forall|k: int| 0 <= k < j - colon - 1 ==> is_digit(#[trigger] port_part[k]),
            val <= 65535,
            val == digits_val(port_part.subrange(0, j - colon - 1)),
        decreases n - j,
    {
        let c = s.get_char(j);
        let cv = c as u32;
        if cv < 48 || cv > 57 {
            proof {
                assert(port_part[j - colon - 1] == addr@[j as int]);
                assert(!all_digits(port_part));
            }
            return Err(SfnError::InvalidPort);
        }
        let d: u32 = cv - 48;
        let next: u32 = val * 10 + d;
        proof {
            let done = port_part.subrange(0, j - colon - 1);
            let done2 = port_part.subrange(0, j - colon);
            assert(done2.drop_last() =~= done);
            assert(done2.last() == addr@[j as int]);
        }
        if next > 65535 {
            proof {
                let upto = port_part.subrange(0, j - colon);
                if all_digits(port_part) {
                    lemma_digits_val_prefix(port_part, j - colon);
                    assert(digits_val(upto) == next);
                }
            }
            return Err(SfnError::InvalidPort);
        }
        val = next;
        j = j + 1;
    }
    proof {
        assert(port_part.subrange(0, n - colon - 1) =~= port_part);
        assert(all_digits(port_part));
    }
    let host = s.substring_char(0, colon).to_owned();
    Ok((host, val as u16))
}

/// The TLS settings and identity of one SFN client.
#[derive(Clone, Debug)]
pub struct Sfn {
    pub sfn_name: String,
    pub zipper: String,
    pub credential: Option<String>,
    pub tls: TlsConfig,
    pub tls_insecure: bool,
}

impl Sfn {
    /// The handshake frame this SFN opens its connection with: its name,
    /// under its credential (empty when none is set).
    pub fn handshake_request(&self) -> (r: HandshakeRequest)
        ensures
            r.sfn_name@ == self.sfn_name@,
            r.credential@ == match self.credential {
                Some(c) => c@,
                None => Seq::<char>::empty(),
            },
    {
        let credential = match &self.credential {
            Some(c) => c.clone(),
            None => String::new(),
        };
        HandshakeRequest { sfn_name: self.sfn_name.clone(), credential }
    }
}

/// Judge the zipper's handshake response: only status 200 lets the client
/// serve; any other status is fatal and carried in the error.
pub fn check_handshake_response(resp: &HandshakeResponse) -> (r: Result<(), SfnError>)
    ensures
        resp.status_code == 200 <==> r is Ok,
        resp.status_code != 200 ==> r == Err::<(), SfnError>(
            SfnError::HandshakeRefused { status_code: resp.status_code },
        ),
{
    if resp.status_code == 200 {
        Ok(())
    } else {
        Err(SfnError::HandshakeRefused { status_code: resp.status_code })
    }
}

/// What the accept loop saw.
#[derive(Clone, Copy, Debug, PartialEq, Eq, Structural)]
pub enum AcceptEvent {
    /// A new inbound bidirectional stream.
    Stream,
    /// The connection closed cleanly.
    Closed,
    /// The peer closed the connection with an application error code.
    ApplicationClose { error_code: u64 },
    /// The transport failed.
    TransportError,
}

/// What the accept loop must do next.
#[derive(Clone, Copy, Debug, PartialEq, Eq, Structural)]
pub enum AcceptAction {
    /// Hand the stream to the bridge in a task of its own and keep accepting.
    HandleStream,
    /// Leave the loop cleanly.
    ExitOk,
    /// Fail: the transport is gone.
    Fail,
}

/// One step of the accept loop: streams are handled in parallel, a close —
/// clean or application-level — ends the loop cleanly, a transport error is
/// fatal.
pub fn accept_step(ev: &AcceptEvent) -> (r: AcceptAction)
    ensures
        r == match ev {
            AcceptEvent::Stream => AcceptAction::HandleStream,
            AcceptEvent::Closed => AcceptAction::ExitOk,
            AcceptEvent::ApplicationClose { .. } => AcceptAction::ExitOk,
            AcceptEvent::TransportError => AcceptAction::Fail,
        },
{
    match ev {
        AcceptEvent::Stream => AcceptAction::HandleStream,
        AcceptEvent::Closed => AcceptAction::ExitOk,
        AcceptEvent::ApplicationClose { .. } => AcceptAction::ExitOk,
        AcceptEvent::TransportError => AcceptAction::Fail,
    }
}

} // verus!
