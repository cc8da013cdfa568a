//! Resolution of a raw target string into a host and a port.
//!
//! A target is `host` or `host:port`; the port after the last colon must
//! be a decimal number up to the largest port, and the host part must be
//! non-empty.  When no port is given, the protocol's default port is used.

use vstd::prelude::*;
use vstd::string::StringSliceAdditionalSpecFns;
use vstd::utf8::encode_utf8;

use crate::session::Error;

verus! {

pub const MAX_PORT: u16 = 65535;

pub const COLON: u8 = 58;

pub const DIGIT_ZERO: u8 = 48;

pub const DIGIT_NINE: u8 = 57;

pub open spec fn is_digit_byte(c: u8) -> bool {
    DIGIT_ZERO <= c <= DIGIT_NINE
}

pub open spec fn all_digits(s: Seq<u8>) -> bool {
    forall|i: int| 0 <= i < s.len() ==> is_digit_byte(#[trigger] s[i])
}

/// Value of a sequence of decimal digit bytes.
pub open spec fn digits_val(s: Seq<u8>) -> int
    decreases s.len(),
{
    if s.len() == 0 {
        0
    } else {
        digits_val(s.drop_last()) * 10 + (s.last() - DIGIT_ZERO)
    }
}

/// A non-empty, all-decimal run that denotes a representable port number.
pub open spec fn valid_port(s: Seq<u8>) -> bool {
    s.len() > 0 && all_digits(s) && digits_val(s) <= MAX_PORT
}

/// Index of the last colon byte, if any.
pub open spec fn last_colon(s: Seq<u8>) -> Option<int>
    decreases s.len(),
{
    if s.len() == 0 {
        None
    } else if s.last() == COLON {
        Some(s.len() - 1)
    } else {
        last_colon(s.drop_last())
    }
}

/// Whether an optional raw target resolves to a host and a port.
pub open spec fn target_resolves(target: Option<String>) -> bool {
    target matches Some(t) && target_ok(encode_utf8(t@))
}

/// The text a target error names: the raw target, or empty when none
/// was given.
pub open spec fn target_text(target: Option<String>) -> Seq<char> {
    match target {
        Some(t) => t@,
        None => Seq::empty(),
    }
}

/// Whether the target string resolves to a host and a port.
pub open spec fn target_ok(b: Seq<u8>) -> bool {
    match last_colon(b) {
        None => b.len() > 0,
        Some(ci) => ci > 0 && valid_port(b.skip(ci + 1)),
    }
}

/// The byte run of the host part.
pub open spec fn host_bytes(b: Seq<u8>) -> Seq<u8> {
    match last_colon(b) {
        None => b,
        Some(ci) => b.take(ci),
    }
}

/// The resolved port: the decimal after the last colon, or the default.
pub open spec fn port_value(b: Seq<u8>, default: u16) -> int {
    match last_colon(b) {
        None => default as int,
        Some(ci) => digits_val(b.skip(ci + 1)),
    }
}

proof fn lemma_last_colon_props(s: Seq<u8>)
    ensures
        match last_colon(s) {
            Some(k) => 0 <= k < s.len() && s[k] == COLON,
            None => true,
        },
    decreases s.len(),
{
    if s.len() > 0 && s.last() != COLON {
        lemma_last_colon_props(s.drop_last());
    }
}

proof fn lemma_digits_nonneg(s: Seq<u8>)
    requires
        all_digits(s),
    ensures
        digits_val(s) >= 0,
    decreases s.len(),
{
    if s.len() > 0 {
        assert(all_digits(s.drop_last()));
        lemma_digits_nonneg(s.drop_last());
    }
}

proof fn lemma_digits_prefix_le(s: Seq<u8>, k: int)
    requires
        all_digits(s),
        0 <= k <= s.len(),
    ensures
        digits_val(s.take(k)) <= digits_val(s),
    decreases s.len() - k,
{
    if k < s.len() {
        assert(all_digits(s.drop_last()));
        lemma_digits_nonneg(s.drop_last());
        if k == s.len() - 1 {
            assert(s.take(k) =~= s.drop_last());
        } else {
            lemma_digits_prefix_le(s.drop_last(), k);
            assert(s.drop_last().take(k) =~= s.take(k));
        }
    } else {
        assert(s.take(k) =~= s);
    }
}

/// Resolves `target` to `(host, port)`, taking `default_port` when the
/// target holds no colon; fails exactly when the target is empty, the
/// host part before the last colon is empty, or what follows the last
/// colon is not a representable decimal port.
pub fn parse_target(target: &str, default_port: u16) -> (r: Result<(String, u16), Error>)
    ensures
        r is Ok <==> target_ok(target.spec_bytes()),
        r matches Ok(hp) ==> {
            &&& encode_utf8(hp.0@) == host_bytes(target.spec_bytes())
            &&& hp.1 == port_value(target.spec_bytes(), default_port)
        },
        r matches Err(e) ==> e matches Error::InvalidTarget(s) && s@ == target@,
{
    let bytes: &[u8] = target.as_bytes();
    let n: usize = bytes.len();
    let ghost b = target.spec_bytes();

    let mut found: Option<usize> = None;
    let mut i: usize = 0;
    while i < n
        invariant
            b == target.spec_bytes(),
            bytes@ == b,
            n == b.len(),
            i <= n,
            match found {
                Some(k) => last_colon(b.take(i as int)) == Some(k as int),
                None => last_colon(b.take(i as int)) is None,
            },
        decreases n - i,
    {
        proof {
            assert(b.take(i + 1).drop_last() =~= b.take(i as int));
            assert(b.take(i + 1).last() == b[i as int]);
        }
        if bytes[i] == COLON {
            found = Some(i);
        }
        i = i + 1;
    }
    proof {
        assert(b.take(n as int) =~= b);
        lemma_last_colon_props(b);
    }

    match found {
        None => {
            if n == 0 {
                Err(Error::InvalidTarget(target.to_owned()))
            } else {
                Ok((target.to_owned(), default_port))
            }
        },
        Some(ci) => {
            if ci == 0 || ci + 1 >= n {
                proof {
                    if ci + 1 >= n {
                        assert(b.skip(ci + 1) =~= Seq::<u8>::empty());
                    }
                }
                return Err(Error::InvalidTarget(target.to_owned()));
            }
            let ghost port_run = b.skip(ci + 1);
            let mut value: u32 = 0;
            let mut j: usize = ci + 1;
            while j < n
                invariant
                    b == target.spec_bytes(),
                    bytes@ == b,
                    n == b.len(),
                    last_colon(b) == Some(ci as int),
                    0 < ci,
                    ci + 1 <= j <= n,
                    port_run == b.skip(ci + 1),
                    port_run.len() == n - ci - 1,
                    all_digits(port_run.take(j - ci - 1)),
                    value == digits_val(port_run.take(j - ci - 1)),
                    value <= MAX_PORT,
                decreases n - j,
            {
                let c = bytes[j];
                if c < DIGIT_ZERO || c > DIGIT_NINE {
                    proof {
                        assert(port_run[j - ci - 1] == c);
                        assert(!all_digits(port_run));
                    }
                    return Err(Error::InvalidTarget(target.to_owned()));
                }
                let d: u32 = (c - DIGIT_ZERO) as u32;
                proof {
                    assert(port_run.take(j - ci) =~= port_run.take(j - ci - 1).push(c));
                    assert(port_run.take(j - ci).drop_last() =~= port_run.take(j - ci - 1));
                }
                value = value * 10 + d;
                j = j + 1;
                if value > MAX_PORT as u32 {
                    proof {
                        assert(!valid_port(port_run)) by {
                            if all_digits(port_run) {
                                lemma_digits_prefix_le(port_run, j - ci - 1);
                            }
                        }
                    }
                    return Err(Error::InvalidTarget(target.to_owned()));
                }
            }
            proof {
                assert(port_run.take(j - ci - 1) =~= port_run);
                assert(valid_port(port_run));
            }
            let port: u16 = value as u16;
            proof {
                vstd::utf8::encode_utf8_valid_utf8(target@);
                vstd::utf8::is_char_boundary_iff_not_is_continuation_byte(b, ci as int);
            }
            let (host_part, _rest) = target.split_at(ci);
            let host = host_part.to_owned();
            proof {
                assert(encode_utf8(host@) =~= b.take(ci as int));
            }
            Ok((host, port))
        },
    }
}

} // verus!
