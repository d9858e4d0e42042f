use vstd::prelude::*;

use base64::Engine;
use vstd::string::StringSliceAdditionalSpecFns;
use vstd::string::StringExecFns;

verus! {

broadcast use vstd::string::group_string_axioms;


/// The character of the standard base64 alphabet for the six-bit value `v`.
pub open spec fn b64_char(v: int) -> char {
    if v < 26 {
        (65 + v) as char
    } else if v < 52 {
        (97 + (v - 26)) as char
    } else if v < 62 {
        (48 + (v - 52)) as char
    } else if v == 62 {
        '+'
    } else {
        '/'
    }
}

/// The six-bit value of a character of the standard base64 alphabet.
pub open spec fn b64_value(c: char) -> int {
    if 'A' <= c && c <= 'Z' {
        c as int - 65
    } else if 'a' <= c && c <= 'z' {
        c as int - 71
    } else if '0' <= c && c <= '9' {
        c as int + 4
    } else if c == '+' {
        62
    } else {
        63
    }
}

proof fn lemma_b64_char(v: int)
    requires
        0 <= v < 64,
    ensures
        b64_value(b64_char(v)) == v,
        is_base64_char(b64_char(v)),
        b64_char(v) != '=',
{
}

/// Standard base64 with padding (RFC 4648): every three bytes become four
/// characters of six bits each; a last group of one or two bytes is filled
/// with zero bits and padded with `=` to four characters.
pub open spec fn base64_encode(b: Seq<u8>) -> Seq<char>
    decreases b.len(),
{
    if b.len() == 0 {
        seq![]
    } else if b.len() == 1 {
        let x = b[0] as int;
        seq![b64_char(x / 4), b64_char((x % 4) * 16), '=', '=']
    } else if b.len() == 2 {
        let x = b[0] as int;
        let y = b[1] as int;
        seq![b64_char(x / 4), b64_char((x % 4) * 16 + y / 16), b64_char((y % 16) * 4), '=']
    } else {
        let x = b[0] as int;
        let y = b[1] as int;
        let z = b[2] as int;
        seq![
            b64_char(x / 4),
            b64_char((x % 4) * 16 + y / 16),
            b64_char((y % 16) * 4 + z / 64),
            b64_char(z % 64),
        ] + base64_encode(b.skip(3))
    }
}

/// Decoding standard base64 (what `base64 -d` does with such text): each
/// group of four characters gives three bytes, or fewer before `=`.
pub open spec fn base64_decode(s: Seq<char>) -> Seq<u8>
    decreases s.len(),
{
    if s.len() < 4 {
        seq![]
    } else {
        let a = b64_value(s[0]);
        let b = b64_value(s[1]);
        let c = b64_value(s[2]);
        let d = b64_value(s[3]);
        let first = (a * 4 + b / 16) as u8;
        if s[2] == '=' {
            seq![first]
        } else if s[3] == '=' {
            seq![first, ((b % 16) * 16 + c / 4) as u8]
        } else {
            seq![first, ((b % 16) * 16 + c / 4) as u8, ((c % 4) * 64 + d) as u8] + base64_decode(
                s.skip(4),
            )
        }
    }
}

proof fn lemma_group_values(x: int, y: int, z: int)
    requires
        0 <= x < 256,
        0 <= y < 256,
        0 <= z < 256,
    ensures
        0 <= x / 4 < 64,
        0 <= (x % 4) * 16 + y / 16 < 64,
        0 <= (y % 16) * 4 + z / 64 < 64,
        0 <= z % 64 < 64,
        (x / 4) * 4 + ((x % 4) * 16 + y / 16) / 16 == x,
        (((x % 4) * 16 + y / 16) % 16) * 16 + ((y % 16) * 4 + z / 64) / 4 == y,
        (((y % 16) * 4 + z / 64) % 4) * 64 + z % 64 == z,
{
    assert(0 <= y / 16 < 16) by (nonlinear_arith)
        requires
            0 <= y < 256,
    ;
    assert(0 <= z / 64 < 4) by (nonlinear_arith)
        requires
            0 <= z < 256,
    ;
    assert(((x % 4) * 16 + y / 16) / 16 == x % 4 && ((x % 4) * 16 + y / 16) % 16 == y / 16)
        by (nonlinear_arith)
        requires
            0 <= y / 16 < 16,
            0 <= x % 4 < 4,
    ;
    assert(((y % 16) * 4 + z / 64) / 4 == y % 16 && ((y % 16) * 4 + z / 64) % 4 == z / 64)
        by (nonlinear_arith)
        requires
            0 <= z / 64 < 4,
            0 <= y % 16 < 16,
    ;
    assert((x / 4) * 4 + x % 4 == x) by (nonlinear_arith);
    assert((y / 16) * 16 + y % 16 == y) by (nonlinear_arith);
    assert((z / 64) * 64 + z % 64 == z) by (nonlinear_arith);
    assert(0 <= x / 4 < 64) by (nonlinear_arith)
        requires
            0 <= x < 256,
    ;
}

/// The encoding is four characters for every started group of three bytes,
/// all from the standard alphabet or `=`.
pub proof fn lemma_base64_shape(b: Seq<u8>)
    ensures
        base64_encode(b).len() == 4 * ((b.len() + 2) / 3),
        forall|i: int|
            0 <= i < base64_encode(b).len() ==> is_base64_char(#[trigger] base64_encode(b)[i]),
    decreases b.len(),
{
    if b.len() == 0 {
    } else {
        let x = b[0] as int;
        let y = if b.len() > 1 { b[1] as int } else { 0 };
        let z = if b.len() > 2 { b[2] as int } else { 0 };
        lemma_group_values(x, y, z);
        lemma_b64_char(x / 4);
        lemma_b64_char((x % 4) * 16 + y / 16);
        lemma_b64_char((y % 16) * 4 + z / 64);
        lemma_b64_char(z % 64);
        lemma_b64_char((x % 4) * 16);
        lemma_b64_char((y % 16) * 4);
        assert(0 <= (x % 4) * 16 < 64 && 0 <= (y % 16) * 4 < 64);
        if b.len() >= 3 {
            lemma_base64_shape(b.skip(3));
            let g = seq![
                b64_char(x / 4),
                b64_char((x % 4) * 16 + y / 16),
                b64_char((y % 16) * 4 + z / 64),
                b64_char(z % 64),
            ];
            let r = base64_encode(b.skip(3));
            assert(base64_encode(b) == g + r);
            assert forall|i: int|
                0 <= i < base64_encode(b).len() implies is_base64_char(
                #[trigger] base64_encode(b)[i],
            ) by {
                if i >= 4 {
                    assert(base64_encode(b)[i] == r[i - 4]);
                }
            }
        }
    }
}

/// Decoding gives back exactly the bytes that were encoded.
pub proof fn law_base64_round_trip(b: Seq<u8>)
    ensures
        base64_decode(base64_encode(b)) == b,
    decreases b.len(),
{
    if b.len() == 0 {
    } else {
        let x = b[0] as int;
        let y = if b.len() > 1 { b[1] as int } else { 0 };
        let z = if b.len() > 2 { b[2] as int } else { 0 };
        lemma_group_values(x, y, z);
        lemma_b64_char(x / 4);
        lemma_b64_char((x % 4) * 16 + y / 16);
        lemma_b64_char((y % 16) * 4 + z / 64);
        lemma_b64_char(z % 64);
        let e = base64_encode(b);
        if b.len() == 1 {
            assert((x % 4) * 16 == (x % 4) * 16 + y / 16);
            assert(base64_decode(e) =~= b);
        } else if b.len() == 2 {
            assert((y % 16) * 4 == (y % 16) * 4 + z / 64);
            assert(base64_decode(e) =~= b);
        } else {
            law_base64_round_trip(b.skip(3));
            assert(e.skip(4) =~= base64_encode(b.skip(3)));
            assert(b =~= seq![b[0], b[1], b[2]] + b.skip(3));
            assert(base64_decode(e) =~= b);
        }
    }
}

/// A character of the standard base64 alphabet, or the padding `=`.
pub open spec fn is_base64_char(c: char) -> bool {
    ||| ('A' <= c && c <= 'Z')
    ||| ('a' <= c && c <= 'z')
    ||| ('0' <= c && c <= '9')
    ||| c == '+'
    ||| c == '/'
    ||| c == '='
}

/// Encodes the UTF-8 bytes of `command` with `base64`'s `STANDARD` engine
/// (`Engine::encode`). Trusted: the result is the standard padded base64 of
/// those bytes (`base64_encode`), as the engine's `STANDARD` alphabet and
/// its padding setting in the crate's source make it. `encode` panics when
/// the encoded length overflows `usize`; the bound in `requires` on the byte
/// length (`str::len`) keeps clear of that.
#[verifier::external_body]
pub(crate) fn encode_base64_command(command: &str) -> (r: String)
    requires
        command.len() <= usize::MAX / 2,
    ensures
        r@ == base64_encode(command.spec_bytes()),
{
    base64::engine::general_purpose::STANDARD.encode(command)
}

/// The text that runs a base64-encoded command remotely between the output
/// markers; `interactive` runs it in an interactive shell.
pub open spec fn frame(b64: Seq<char>, interactive: bool) -> Seq<char> {
    "echo MY_begin;echo "@ + b64 + if interactive {
        " | base64 -d | bash -i;echo MY_end\n"@
    } else {
        " | base64 -d | bash;echo MY_end\n"@
    }
}

/// The line that runs the base64 text `encoded` remotely: decoded and run
/// by `bash` between an `MY_begin` and an `MY_end` echo.
pub fn frame_encoded(encoded: &str, interactive: bool) -> (r: String)
    ensures
        r@ == frame(encoded@, interactive),
{
    let mut r = String::from_str("echo MY_begin;echo ");
    r.append(encoded);
    if interactive {
        r.append(" | base64 -d | bash -i;echo MY_end\n");
    } else {
        r.append(" | base64 -d | bash;echo MY_end\n");
    }
    r
}

/// The line sent to run `command` remotely: its base64 encoding, framed.
pub fn frame_command(command: &str, interactive: bool) -> (r: String)
    requires
        command.len() <= usize::MAX / 2,
    ensures
        r@ == frame(base64_encode(command.spec_bytes()), interactive),
{
    let encoded = encode_base64_command(command);
    frame_encoded(encoded.as_str(), interactive)
}

/// Whatever the command holds (quotes, `;`, newlines), the framed text is a
/// single shell line: its only `\n` is the last character.
pub proof fn law_frame_is_one_line(b64: Seq<char>, interactive: bool)
    requires
        forall|i: int| 0 <= i < b64.len() ==> is_base64_char(#[trigger] b64[i]),
    ensures
        frame(b64, interactive).len() > 0,
        frame(b64, interactive).last() == '\n',
        forall|i: int|
            0 <= i < frame(b64, interactive).len() - 1 ==> #[trigger] frame(b64, interactive)[i]
                != '\n',
{
    reveal_strlit("echo MY_begin;echo ");
    reveal_strlit(" | base64 -d | bash -i;echo MY_end\n");
    reveal_strlit(" | base64 -d | bash;echo MY_end\n");
    let head = "echo MY_begin;echo "@;
    let tail = if interactive {
        " | base64 -d | bash -i;echo MY_end\n"@
    } else {
        " | base64 -d | bash;echo MY_end\n"@
    };
    let f = frame(b64, interactive);
    assert(f =~= head + b64 + tail);
    assert forall|i: int| 0 <= i < f.len() - 1 implies #[trigger] f[i] != '\n' by {
        if i < head.len() {
            assert(f[i] == head[i]);
        } else if i < head.len() + b64.len() {
            assert(f[i] == b64[i - head.len()]);
        } else {
            assert(f[i] == tail[i - head.len() - b64.len()]);
        }
    }
}

} // verus!
