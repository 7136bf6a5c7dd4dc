//! Hex-formatting helpers for certificate dumps: a colon-separated hex
//! rendering of byte strings, row by row, and a capped hex dump for long
//! buffers.

use vstd::prelude::*;
use vstd::string::StringExecFns;

use x509_parser::nom::HexDisplay;

verus! {

/// The lower-case hex digit character for a value below sixteen.
pub open spec fn hex_digit(d: nat) -> char {
    if d == 0 {
        '0'
    } else if d == 1 {
        '1'
    } else if d == 2 {
        '2'
    } else if d == 3 {
        '3'
    } else if d == 4 {
        '4'
    } else if d == 5 {
        '5'
    } else if d == 6 {
        '6'
    } else if d == 7 {
        '7'
    } else if d == 8 {
        '8'
    } else if d == 9 {
        '9'
    } else if d == 10 {
        'a'
    } else if d == 11 {
        'b'
    } else if d == 12 {
        'c'
    } else if d == 13 {
        'd'
    } else if d == 14 {
        'e'
    } else {
        'f'
    }
}

/// One byte as two lower-case hex digits.
pub open spec fn hex_byte_chars(b: u8) -> Seq<char> {
    seq![hex_digit(b as nat / 16), hex_digit(b as nat % 16)]
}

/// A byte string as hex pairs, each followed by a colon.
pub open spec fn hex_colon_row(bytes: Seq<u8>) -> Seq<char>
    decreases bytes.len(),
{
    if bytes.len() == 0 {
        Seq::empty()
    } else {
        hex_byte_chars(bytes.first()) + seq![':'] + hex_colon_row(bytes.drop_first())
    }
}

/// A byte string split into rows of at most `row` bytes, each rendered as
/// a colon-separated hex row.
pub open spec fn hex_colon_rows(bytes: Seq<u8>, row: nat) -> Seq<Seq<char>>
    recommends
        row >= 1,
    decreases bytes.len(),
{
    if row == 0 || bytes.len() == 0 {
        Seq::empty()
    } else if bytes.len() <= row {
        seq![hex_colon_row(bytes)]
    } else {
        seq![hex_colon_row(bytes.take(row as int))] + hex_colon_rows(bytes.skip(row as int), row)
    }
}

/// The views of a sequence of strings.
pub open spec fn strings_model(v: Seq<String>) -> Seq<Seq<char>> {
    v.map_values(|s: String| s@)
}

/// One hex digit as a string slice.
fn hex_digit_str(d: u8) -> (r: &'static str)
    requires
        d < 16,
    ensures
        r@ == seq![hex_digit(d as nat)],
{
    match d {
        0 => {
            proof {
                reveal_strlit("0");
                assert("0"@ =~= seq![hex_digit(0)]);
            }
            "0"
        },
        1 => {
            proof {
                reveal_strlit("1");
                assert("1"@ =~= seq![hex_digit(1)]);
            }
            "1"
        },
        2 => {
            proof {
                reveal_strlit("2");
                assert("2"@ =~= seq![hex_digit(2)]);
            }
            "2"
        },
        3 => {
            proof {
                reveal_strlit("3");
                assert("3"@ =~= seq![hex_digit(3)]);
            }
            "3"
        },
        4 => {
            proof {
                reveal_strlit("4");
                assert("4"@ =~= seq![hex_digit(4)]);
            }
            "4"
        },
        5 => {
            proof {
                reveal_strlit("5");
                assert("5"@ =~= seq![hex_digit(5)]);
            }
            "5"
        },
        6 => {
            proof {
                reveal_strlit("6");
                assert("6"@ =~= seq![hex_digit(6)]);
            }
            "6"
        },
        7 => {
            proof {
                reveal_strlit("7");
                assert("7"@ =~= seq![hex_digit(7)]);
            }
            "7"
        },
        8 => {
            proof {
                reveal_strlit("8");
                assert("8"@ =~= seq![hex_digit(8)]);
            }
            "8"
        },
        9 => {
            proof {
                reveal_strlit("9");
                assert("9"@ =~= seq![hex_digit(9)]);
            }
            "9"
        },
        10 => {
            proof {
                reveal_strlit("a");
                assert("a"@ =~= seq![hex_digit(10)]);
            }
            "a"
        },
        11 => {
            proof {
                reveal_strlit("b");
                assert("b"@ =~= seq![hex_digit(11)]);
            }
            "b"
        },
        12 => {
            proof {
                reveal_strlit("c");
                assert("c"@ =~= seq![hex_digit(12)]);
            }
            "c"
        },
        13 => {
            proof {
                reveal_strlit("d");
                assert("d"@ =~= seq![hex_digit(13)]);
            }
            "d"
        },
        14 => {
            proof {
                reveal_strlit("e");
                assert("e"@ =~= seq![hex_digit(14)]);
            }
            "e"
        },
        _ => {
            proof {
                reveal_strlit("f");
                assert("f"@ =~= seq![hex_digit(15)]);
            }
            "f"
        },
    }
}

/// Appends one byte as two hex digits and a colon.
fn push_hex_byte(b: u8, out: &mut String)
    ensures
        final(out)@ == old(out)@ + hex_byte_chars(b) + seq![':'],
{
    out.append(hex_digit_str(b / 16));
    out.append(hex_digit_str(b % 16));
    proof {
        reveal_strlit(":");
        assert(":"@ =~= seq![':']);
    }
    out.append(":");
    proof {
        assert(old(out)@ + seq![hex_digit(b as nat / 16)] + seq![hex_digit(b as nat % 16)]
            + seq![':'] =~= old(out)@ + hex_byte_chars(b) + seq![':']);
    }
}

/// Appending a byte to a row appends its hex pair and a colon.
proof fn lemma_hex_colon_row_push(s: Seq<u8>, x: u8)
    ensures
        hex_colon_row(s.push(x)) == hex_colon_row(s) + hex_byte_chars(x) + seq![':'],
    decreases s.len(),
{
    reveal_with_fuel(hex_colon_row, 3);
    if s.len() == 0 {
        assert(s.push(x).first() == x);
        assert(s.push(x).drop_first() =~= Seq::<u8>::empty());
        assert(hex_colon_row(s.push(x)) =~= hex_colon_row(s) + hex_byte_chars(x) + seq![':']);
    } else {
        assert(s.push(x).first() == s.first());
        assert(s.push(x).drop_first() =~= s.drop_first().push(x));
        lemma_hex_colon_row_push(s.drop_first(), x);
        assert(hex_colon_row(s.push(x)) =~= hex_colon_row(s) + hex_byte_chars(x) + seq![':']);
    }
}

proof fn lemma_strings_model_push(v: Seq<String>, s: String)
    ensures
        strings_model(v.push(s)) =~= strings_model(v).push(s@),
{
}

/// Renders a byte string as rows of colon-separated hex pairs, at most
/// `row_size` bytes to a row.
pub fn format_number_to_hex_with_colon(b: &[u8], row_size: usize) -> (r: Vec<String>)
    requires
        row_size >= 1,
    ensures
        strings_model(r@) == hex_colon_rows(b@, row_size as nat),
{
    let mut rows: Vec<String> = Vec::new();
    let len = b.len();
    let mut pos: usize = 0;
    proof {
        assert(strings_model(rows@) =~= Seq::<Seq<char>>::empty());
        assert(b@.skip(0) =~= b@);
        assert(Seq::<Seq<char>>::empty() + hex_colon_rows(b@, row_size as nat) =~= hex_colon_rows(
            b@,
            row_size as nat,
        ));
    }
    while pos < len
        invariant
            len == b@.len(),
            pos <= len,
            row_size >= 1,
            hex_colon_rows(b@, row_size as nat) == strings_model(rows@) + hex_colon_rows(
                b@.skip(pos as int),
                row_size as nat,
            ),
        decreases len - pos,
    {
        let end = if len - pos > row_size {
            pos + row_size
        } else {
            len
        };
        let ghost rows0 = rows@;
        let mut row = String::new();
        let mut j = pos;
        while j < end
            invariant
                len == b@.len(),
                pos <= j <= end <= len,
                row@ == hex_colon_row(b@.subrange(pos as int, j as int)),
            decreases end - j,
        {
            proof {
                assert(b@.subrange(pos as int, j as int).push(b@[j as int]) =~= b@.subrange(
                    pos as int,
                    j + 1,
                ));
                lemma_hex_colon_row_push(b@.subrange(pos as int, j as int), b@[j as int]);
            }
            push_hex_byte(b[j], &mut row);
            j = j + 1;
        }
        rows.push(row);
        proof {
            lemma_strings_model_push(rows0, row);
            let tail = b@.skip(pos as int);
            if end == len {
                assert(tail =~= b@.subrange(pos as int, end as int));
                assert(hex_colon_rows(tail, row_size as nat) == seq![row@]);
                assert(b@.skip(end as int) =~= Seq::<u8>::empty());
                assert(strings_model(rows0) + seq![row@] =~= strings_model(rows@)
                    + hex_colon_rows(b@.skip(end as int), row_size as nat));
            } else {
                assert(tail.take(row_size as int) =~= b@.subrange(pos as int, end as int));
                assert(tail.skip(row_size as int) =~= b@.skip(end as int));
                assert(hex_colon_rows(tail, row_size as nat) == seq![row@] + hex_colon_rows(
                    b@.skip(end as int),
                    row_size as nat,
                ));
                assert(strings_model(rows0) + (seq![row@] + hex_colon_rows(
                    b@.skip(end as int),
                    row_size as nat,
                )) =~= strings_model(rows@) + hex_colon_rows(
                    b@.skip(end as int),
                    row_size as nat,
                ));
            }
        }
        pos = end;
    }
    proof {
        assert(b@.skip(pos as int) =~= Seq::<u8>::empty());
        assert(strings_model(rows@) + Seq::<Seq<char>>::empty() =~= strings_model(rows@));
    }
    rows
}

/// What nom's hex dump makes of a byte string at a given row width: an
/// offset, hex and ASCII rendering that depends on the bytes and the
/// width alone.
pub uninterp spec fn hex_dump_of(b: Seq<u8>, chunk: nat) -> Seq<char>;

/// Relies on `HexDisplay::to_hex` of nom: its text is a function of the
/// bytes and the chunk size alone. A chunk size of zero would abort in
/// its chunking, so it is excluded here.
#[verifier::external_body]
fn to_hex_chunked(b: &[u8], chunk_size: usize) -> (r: String)
    requires
        chunk_size >= 1,
    ensures
        r@ == hex_dump_of(b@, chunk_size as nat),
{
    b.to_hex(chunk_size)
}

/// Renders at most `max_len` bytes of a buffer as a 16-byte-per-row hex
/// dump, marking a truncated rendering as continued.
pub fn format_hex_dump(bytes: &[u8], max_len: usize) -> (r: String)
    ensures
        if bytes@.len() > max_len {
            r@ == hex_dump_of(bytes@.take(max_len as int), 16) + "... <continued>\n"@
        } else {
            r@ == hex_dump_of(bytes@, 16)
        },
{
    if bytes.len() > max_len {
        let prefix: &[u8] = &bytes[0..max_len];
        proof {
            assert(prefix@ =~= bytes@.take(max_len as int));
        }
        let mut out = to_hex_chunked(prefix, 16);
        out.append("... <continued>\n");
        out
    } else {
        to_hex_chunked(bytes, 16)
    }
}

} // verus!
