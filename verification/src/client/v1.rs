//! The computational side of the log client: the relative paths and query
//! strings of the eight RFC 6962 endpoints, built with a verified decimal
//! formatter, and the range accounting a caller needs when a log answers a
//! get-entries request with fewer entries than were asked for. The HTTP
//! transport around these lives outside the verified library.

use vstd::prelude::*;
use vstd::string::StringExecFns;

verus! {

/// The decimal digit character for a value below ten.
pub open spec fn digit_char(d: nat) -> char {
    if d == 0 {
        '0'
    } else if d == 1 {
        '1'
    } else if d == 2 {
        '2'
    } else if d == 3 {
        '3'
    } else if d == 4 {
        '4'
    } else if d == 5 {
        '5'
    } else if d == 6 {
        '6'
    } else if d == 7 {
        '7'
    } else if d == 8 {
        '8'
    } else {
        '9'
    }
}

/// The decimal digits of `n`, most significant first, with no leading
/// zeros except for zero itself.
pub open spec fn dec_digits(n: nat) -> Seq<char>
    decreases n,
{
    if n < 10 {
        seq![digit_char(n)]
    } else {
        dec_digits(n / 10).push(digit_char(n % 10))
    }
}

/// One decimal digit as a string slice.
fn digit_str(d: u64) -> (r: &'static str)
    requires
        d < 10,
    ensures
        r@ == seq![digit_char(d as nat)],
{
    match d {
        0 => {
            proof {
                reveal_strlit("0");
                assert("0"@ =~= seq![digit_char(0)]);
            }
            "0"
        },
        1 => {
            proof {
                reveal_strlit("1");
                assert("1"@ =~= seq![digit_char(1)]);
            }
            "1"
        },
        2 => {
            proof {
                reveal_strlit("2");
                assert("2"@ =~= seq![digit_char(2)]);
            }
            "2"
        },
        3 => {
            proof {
                reveal_strlit("3");
                assert("3"@ =~= seq![digit_char(3)]);
            }
            "3"
        },
        4 => {
            proof {
                reveal_strlit("4");
                assert("4"@ =~= seq![digit_char(4)]);
            }
            "4"
        },
        5 => {
            proof {
                reveal_strlit("5");
                assert("5"@ =~= seq![digit_char(5)]);
            }
            "5"
        },
        6 => {
            proof {
                reveal_strlit("6");
                assert("6"@ =~= seq![digit_char(6)]);
            }
            "6"
        },
        7 => {
            proof {
                reveal_strlit("7");
                assert("7"@ =~= seq![digit_char(7)]);
            }
            "7"
        },
        8 => {
            proof {
                reveal_strlit("8");
                assert("8"@ =~= seq![digit_char(8)]);
            }
            "8"
        },
        _ => {
            proof {
                reveal_strlit("9");
                assert("9"@ =~= seq![digit_char(9)]);
            }
            "9"
        },
    }
}

/// Appends the decimal digits of `n` to `out`.
fn push_dec(n: u64, out: &mut String)
    ensures
        final(out)@ == old(out)@ + dec_digits(n as nat),
    decreases n,
{
    if n >= 10 {
        proof {
            assert(n / 10 < n) by (nonlinear_arith)
                requires
                    n >= 10,
            ;
        }
        push_dec(n / 10, out);
        let d = n % 10;
        let ghost mid = out@;
        out.append(digit_str(d));
        proof {
            assert(old(out)@ + dec_digits((n / 10) as nat) + seq![digit_char((n % 10) as nat)]
                =~= old(out)@ + dec_digits(n as nat));
        }
    } else {
        out.append(digit_str(n));
    }
}

/// The decimal digits of `n` as a fresh string.
pub fn u64_to_dec(n: u64) -> (r: String)
    ensures
        r@ == dec_digits(n as nat),
{
    let mut out = String::new();
    push_dec(n, &mut out);
    proof {
        assert(Seq::<char>::empty() + dec_digits(n as nat) =~= dec_digits(n as nat));
    }
    out
}

/// The relative path a chain submission is posted to.
pub fn add_chain_path() -> (r: String)
    ensures
        r@ == "ct/v1/add-chain"@,
{
    String::from_str("ct/v1/add-chain")
}

/// The relative path a precertificate chain submission is posted to.
pub fn add_pre_chain_path() -> (r: String)
    ensures
        r@ == "ct/v1/add-pre-chain"@,
{
    String::from_str("ct/v1/add-pre-chain")
}

/// The relative path of the latest signed tree head.
pub fn get_sth_path() -> (r: String)
    ensures
        r@ == "ct/v1/get-sth"@,
{
    String::from_str("ct/v1/get-sth")
}

/// The relative path of the accepted root certificates.
pub fn get_roots_path() -> (r: String)
    ensures
        r@ == "ct/v1/get-roots"@,
{
    String::from_str("ct/v1/get-roots")
}

/// The relative path and query of a consistency proof between the tree
/// heads of two sizes.
pub fn get_sth_consistency_path(first: u64, second: u64) -> (r: String)
    ensures
        r@ == "ct/v1/get-sth-consistency?first="@ + dec_digits(first as nat) + "&second="@
            + dec_digits(second as nat),
{
    let mut out = String::from_str("ct/v1/get-sth-consistency?first=");
    push_dec(first, &mut out);
    out.append("&second=");
    push_dec(second, &mut out);
    out
}

/// The relative path and query of an audit proof for one leaf hash. The
/// hash is passed through as the caller supplies it, base64 encoded.
pub fn get_proof_by_hash_path(hash: &str, tree_size: u64) -> (r: String)
    ensures
        r@ == "ct/v1/get-proof-by-hash?hash="@ + hash@ + "&tree_size="@ + dec_digits(
            tree_size as nat,
        ),
{
    let mut out = String::from_str("ct/v1/get-proof-by-hash?hash=");
    out.append(hash);
    out.append("&tree_size=");
    push_dec(tree_size, &mut out);
    out
}

/// The relative path and query of an inclusive entry range.
pub fn get_entries_path(start: u64, end: u64) -> (r: String)
    ensures
        r@ == "ct/v1/get-entries?start="@ + dec_digits(start as nat) + "&end="@ + dec_digits(
            end as nat,
        ),
{
    let mut out = String::from_str("ct/v1/get-entries?start=");
    push_dec(start, &mut out);
    out.append("&end=");
    push_dec(end, &mut out);
    out
}

/// The relative path and query of one entry with its audit proof.
pub fn get_entry_and_proof_path(leaf_index: u64, tree_size: u64) -> (r: String)
    ensures
        r@ == "ct/v1/get-entry-and-proof?leaf_index="@ + dec_digits(leaf_index as nat)
            + "&tree_size="@ + dec_digits(tree_size as nat),
{
    let mut out = String::from_str("ct/v1/get-entry-and-proof?leaf_index=");
    push_dec(leaf_index, &mut out);
    out.append("&tree_size=");
    push_dec(tree_size, &mut out);
    out
}

/// Where to continue after a get-entries answer. A log may return fewer
/// entries than the inclusive range `[start, end]` asked for; the caller
/// continues from the index after the last entry returned. Returns the
/// next index to request while entries of the range remain, and nothing
/// once `returned` covers the whole range.
pub fn next_entry_index(start: u64, end: u64, returned: usize) -> (r: Option<u64>)
    requires
        start <= end,
    ensures
        if returned < end - start + 1 {
            r == Option::Some((start + returned) as u64)
        } else {
            r == Option::<u64>::None
        },
{
    if (returned as u64) <= end - start {
        Some(start + returned as u64)
    } else {
        None
    }
}

} // verus!
