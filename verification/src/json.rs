//! JSON texts and digests of them.
use crate::identity::{hex, hex_char, hex_text};
use crate::text::opt_text;
use sha2::Digest;
use vstd::prelude::*;
use vstd::string::*;
use vstd::utf8::encode_utf8;

verus! {

/// How a character stands in a JSON string.
pub open spec fn escape(c: char) -> Seq<char> {
    if c == '"' {
        seq!['\\', '"']
    } else if c == '\\' {
        seq!['\\', '\\']
    } else if c == '\u{8}' {
        seq!['\\', 'b']
    } else if c == '\t' {
        seq!['\\', 't']
    } else if c == '\n' {
        seq!['\\', 'n']
    } else if c == '\u{c}' {
        seq!['\\', 'f']
    } else if c == '\r' {
        seq!['\\', 'r']
    } else if (c as u32) < 32 {
        seq!['\\', 'u', '0', '0', hex_char((c as nat) / 16), hex_char((c as nat) % 16)]
    } else {
        seq![c]
    }
}

/// How a text stands between the quotes of a JSON string.
pub open spec fn escaped(text: Seq<char>) -> Seq<char>
    decreases text.len(),
{
    if text.len() == 0 {
        Seq::empty()
    } else {
        escape(text[0]) + escaped(text.drop_first())
    }
}

/// A text as a JSON string.
pub open spec fn json_text(text: Seq<char>) -> Seq<char> {
    seq!['"'] + escaped(text) + seq!['"']
}

/// An optional text as a JSON string or null.
pub open spec fn json_opt_text(value: Option<Seq<char>>) -> Seq<char> {
    match value {
        Some(text) => json_text(text),
        None => "null"@,
    }
}

/// Calls [`serde_json::to_string`] on a text. Claimed of it: it never fails there
/// and writes the text between quotes, with the quote, the backslash and the
/// control characters below the space escaped and everything else as it is.
#[verifier::external_body]
pub(crate) fn write_json_text(text: &String) -> (json: String)
    ensures
        json@ == json_text(text@),
{
    serde_json::to_string(text.as_str()).unwrap_or_default()
}

/// Writes an optional text as a JSON string or null.
pub fn write_json_opt_text(value: &Option<String>) -> (json: String)
    ensures
        json@ == json_opt_text(opt_text(*value)),
{
    match value {
        Some(text) => write_json_text(text),
        None => "null".to_owned(),
    }
}

/// The SHA-256 digest of bytes.
pub uninterp spec fn sha256(bytes: Seq<u8>) -> Seq<u8>;

/// Calls [`sha2::Digest::digest`] of [`sha2::Sha256`]. Claimed of it: the digest
/// depends on the bytes alone and has 32 of them.
#[verifier::external_body]
fn digest_bytes(bytes: &[u8]) -> (digest: Vec<u8>)
    ensures
        digest@ == sha256(bytes@),
        digest@.len() == 32,
{
    sha2::Sha256::digest(bytes).to_vec()
}

/// The digest of a text in hexadecimal digits.
pub open spec fn text_digest(text: Seq<char>) -> Seq<char> {
    hex(sha256(encode_utf8(text)))
}

/// Computes the digest of a text in hexadecimal digits.
pub fn digest_text(text: &String) -> (digest: String)
    ensures
        digest@ == text_digest(text@),
{
    hex_text(&digest_bytes(text.as_str().as_bytes()))
}

proof fn lemma_hex_chars(a: nat, b: nat)
    requires
        a < 16,
        b < 16,
    ensures
        hex_char(a) == hex_char(b) ==> a == b,
{
}

proof fn lemma_escape_is_prefix_free(c: char, r: Seq<char>, d: char, s: Seq<char>)
    requires
        escape(c) + r == escape(d) + s,
    ensures
        c == d,
        r == s,
{
    let left = escape(c) + r;
    let right = escape(d) + s;
    assert(left[0] == escape(c)[0]);
    assert(right[0] == escape(d)[0]);
    if escape(c).len() > 1 {
        assert(left[1] == escape(c)[1]);
    }
    if escape(d).len() > 1 {
        assert(right[1] == escape(d)[1]);
    }
    if escape(c).len() == 6 && escape(d).len() == 6 {
        assert(left[4] == escape(c)[4] && left[5] == escape(c)[5]);
        assert(right[4] == escape(d)[4] && right[5] == escape(d)[5]);
        lemma_hex_chars((c as nat) / 16, (d as nat) / 16);
        lemma_hex_chars((c as nat) % 16, (d as nat) % 16);
    }
    assert(c == d);
    let n = escape(c).len() as int;
    assert(left.skip(n) =~= r);
    assert(right.skip(n) =~= s);
}

proof fn lemma_escaped_ends(a: Seq<char>, r: Seq<char>, b: Seq<char>, s: Seq<char>)
    requires
        escaped(a) + seq!['"'] + r == escaped(b) + seq!['"'] + s,
    ensures
        a == b,
        r == s,
    decreases a.len(),
{
    let quote = seq!['"'];
    let left = escaped(a) + quote + r;
    let right = escaped(b) + quote + s;
    if a.len() == 0 && b.len() == 0 {
        assert(a =~= b);
        assert(left.skip(1) =~= r);
        assert(right.skip(1) =~= s);
    } else if a.len() == 0 {
        assert(left[0] == '"');
        assert(right[0] == escape(b[0])[0]);
    } else if b.len() == 0 {
        assert(right[0] == '"');
        assert(left[0] == escape(a[0])[0]);
    } else {
        let rest_a = escaped(a.drop_first()) + quote + r;
        let rest_b = escaped(b.drop_first()) + quote + s;
        assert(left =~= escape(a[0]) + rest_a);
        assert(right =~= escape(b[0]) + rest_b);
        lemma_escape_is_prefix_free(a[0], rest_a, b[0], rest_b);
        lemma_escaped_ends(a.drop_first(), r, b.drop_first(), s);
        assert(a =~= seq![a[0]] + a.drop_first());
        assert(b =~= seq![b[0]] + b.drop_first());
    }
}

/// A JSON string tells its text and where it ends: two texts that start with one
/// start with the same one, and go on in the same way.
pub proof fn law_json_texts_are_told_apart(
    a: Seq<char>,
    r: Seq<char>,
    b: Seq<char>,
    s: Seq<char>,
)
    requires
        json_text(a) + r == json_text(b) + s,
    ensures
        a == b,
        r == s,
{
    let left = json_text(a) + r;
    let right = json_text(b) + s;
    assert(left.skip(1) =~= escaped(a) + seq!['"'] + r);
    assert(right.skip(1) =~= escaped(b) + seq!['"'] + s);
    lemma_escaped_ends(a, r, b, s);
}

/// The same of optional texts.
pub proof fn law_json_opt_texts_are_told_apart(
    a: Option<Seq<char>>,
    r: Seq<char>,
    b: Option<Seq<char>>,
    s: Seq<char>,
)
    requires
        json_opt_text(a) + r == json_opt_text(b) + s,
    ensures
        a == b,
        r == s,
{
    reveal_strlit("null");
    let left = json_opt_text(a) + r;
    let right = json_opt_text(b) + s;
    match (a, b) {
        (Some(x), Some(y)) => {
            law_json_texts_are_told_apart(x, r, y, s);
        },
        (None, None) => {
            assert(left.skip(4) =~= r);
            assert(right.skip(4) =~= s);
        },
        (Some(x), None) => {
            assert(left[0] == '"');
            assert(right[0] == 'n');
        },
        (None, Some(y)) => {
            assert(left[0] == 'n');
            assert(right[0] == '"');
        },
    }
}

proof fn lemma_escaped_parts(left: Seq<char>, right: Seq<char>)
    ensures
        escaped(left + right) == escaped(left) + escaped(right),
    decreases left.len(),
{
    if left.len() == 0 {
        assert(left + right =~= right);
        assert(escaped(left) + escaped(right) =~= escaped(right));
    } else {
        assert((left + right).drop_first() =~= left.drop_first() + right);
        lemma_escaped_parts(left.drop_first(), right);
        assert(escaped(left + right) =~= escaped(left) + escaped(right));
    }
}

proof fn lemma_plain_escaped(text: Seq<char>)
    requires
        forall|i: int|
            0 <= i < text.len() ==> 32 <= (#[trigger] text[i]) as u32 && text[i] != '"' && text[i]
                != '\\',
    ensures
        escaped(text) == text,
    decreases text.len(),
{
    if text.len() > 0 {
        let rest = text.drop_first();
        assert forall|i: int| 0 <= i < rest.len() implies 32 <= (#[trigger] rest[i]) as u32
            && rest[i] != '"' && rest[i] != '\\' by {
            assert(rest[i] == text[i + 1]);
        }
        lemma_plain_escaped(rest);
        let first = text[0];
        assert(32 <= first as u32 && first != '"' && first != '\\');
        assert(escape(first) =~= seq![first]);
        assert(escaped(text) =~= text);
    } else {
        assert(escaped(text) =~= text);
    }
}

/// A JSON text stands between quotes. Characters that need no escape stand as they are,
/// and each part of a text is written by itself: a quote and a backslash behind a
/// backslash, the five short control characters by their letters, and the others below
/// the space by four hexadecimal digits.
pub proof fn law_json_texts_are_escaped(left: Seq<char>, right: Seq<char>, c: char)
    ensures
        json_text(left)[0] == '"',
        json_text(left).last() == '"',
        json_text(left + right) == json_text(left).drop_last() + json_text(right).drop_first(),
        (forall|i: int|
            0 <= i < left.len() ==> 32 <= (#[trigger] left[i]) as u32 && left[i] != '"' && left[i]
                != '\\') ==> json_text(left) == seq!['"'] + left + seq!['"'],
        json_text(seq!['"']) == seq!['"', '\\', '"', '"'],
        json_text(seq!['\\']) == seq!['"', '\\', '\\', '"'],
        json_text(seq!['\u{8}']) == seq!['"', '\\', 'b', '"'],
        json_text(seq!['\t']) == seq!['"', '\\', 't', '"'],
        json_text(seq!['\n']) == seq!['"', '\\', 'n', '"'],
        json_text(seq!['\u{c}']) == seq!['"', '\\', 'f', '"'],
        json_text(seq!['\r']) == seq!['"', '\\', 'r', '"'],
        ({
            let told = json_text(seq![c]);
            (c as int) < 8 || c as int == 11 || 14 <= (c as int) < 32 ==> {
                &&& told.len() == 8
                &&& told[1] == '\\' && told[2] == 'u' && told[3] == '0' && told[4] == '0'
                &&& told[5] == (if (c as int) < 16 {
                    '0'
                } else {
                    '1'
                })
                &&& (c as int) % 16 < 10 ==> told[6] as int == 48 + (c as int) % 16
                &&& (c as int) % 16 >= 10 ==> told[6] as int == 87 + (c as int) % 16
            }
        }),
        json_opt_text(None) == "null"@,
        json_opt_text(Some(left)) == json_text(left),
{
    lemma_escaped_parts(left, right);
    assert(json_text(left + right) =~= json_text(left).drop_last() + json_text(
        right,
    ).drop_first());
    if forall|i: int|
        0 <= i < left.len() ==> 32 <= (#[trigger] left[i]) as u32 && left[i] != '"' && left[i]
            != '\\' {
        lemma_plain_escaped(left);
    }
    assert forall|d: char| #[trigger] escaped(seq![d]) == escape(d) by {
        assert(seq![d].drop_first() =~= Seq::<char>::empty());
        assert(escaped(Seq::<char>::empty()) =~= Seq::<char>::empty());
        assert(escaped(seq![d]) =~= escape(d));
    }
    assert(json_text(seq!['"']) =~= seq!['"', '\\', '"', '"']);
    assert(json_text(seq!['\\']) =~= seq!['"', '\\', '\\', '"']);
    assert(json_text(seq!['\u{8}']) =~= seq!['"', '\\', 'b', '"']);
    assert(json_text(seq!['\t']) =~= seq!['"', '\\', 't', '"']);
    assert(json_text(seq!['\n']) =~= seq!['"', '\\', 'n', '"']);
    assert(json_text(seq!['\u{c}']) =~= seq!['"', '\\', 'f', '"']);
    assert(json_text(seq!['\r']) =~= seq!['"', '\\', 'r', '"']);
}

} // verus!
