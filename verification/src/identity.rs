//! Identities: random UUIDs as texts, hexadecimal texts, and the reservation of
//! identities that nothing in the Library has yet.
use crate::error::PersistenceError;
use crate::text::{contains_text, lemma_texts_push, texts};
use vstd::prelude::*;
use vstd::string::*;

verus! {

/// The lower-case character that writes a hexadecimal digit.
pub open spec fn hex_char(d: nat) -> char
    recommends
        d < 16,
{
    if d < 10 {
        (('0' as nat) + d) as char
    } else {
        (('a' as nat) + (d - 10)) as char
    }
}

/// The two hexadecimal digits of a byte.
pub open spec fn hex_byte(byte: u8) -> Seq<char> {
    seq![hex_char((byte / 16) as nat), hex_char((byte % 16) as nat)]
}

/// The hexadecimal digits of bytes.
pub open spec fn hex(bytes: Seq<u8>) -> Seq<char>
    decreases bytes.len(),
{
    if bytes.len() == 0 {
        Seq::empty()
    } else {
        hex(bytes.drop_last()) + hex_byte(bytes.last())
    }
}

fn hex_digit(d: u8) -> (digit: &'static str)
    requires
        d < 16,
    ensures
        digit@ == seq![hex_char(d as nat)],
{
    proof {
        reveal_strlit("0");
        reveal_strlit("1");
        reveal_strlit("2");
        reveal_strlit("3");
        reveal_strlit("4");
        reveal_strlit("5");
        reveal_strlit("6");
        reveal_strlit("7");
        reveal_strlit("8");
        reveal_strlit("9");
        reveal_strlit("a");
        reveal_strlit("b");
        reveal_strlit("c");
        reveal_strlit("d");
        reveal_strlit("e");
        reveal_strlit("f");
    }
    let digit: &'static str = match d {
        0 => "0",
        1 => "1",
        2 => "2",
        3 => "3",
        4 => "4",
        5 => "5",
        6 => "6",
        7 => "7",
        8 => "8",
        9 => "9",
        10 => "a",
        11 => "b",
        12 => "c",
        13 => "d",
        14 => "e",
        _ => "f",
    };
    assert(digit@ =~= seq![hex_char(d as nat)]);
    digit
}

/// Appends the hexadecimal digits of a byte.
pub fn append_hex(text: &mut String, byte: u8)
    ensures
        final(text)@ == old(text)@ + hex_byte(byte),
{
    text.append(hex_digit(byte / 16));
    text.append(hex_digit(byte % 16));
    assert(text@ =~= old(text)@ + hex_byte(byte));
}

/// The hexadecimal digits of bytes.
pub fn hex_text(bytes: &Vec<u8>) -> (text: String)
    ensures
        text@ == hex(bytes@),
{
    let mut text: String = String::new();
    let mut i: usize = 0;
    assert(bytes@.take(0) =~= Seq::<u8>::empty());
    while i < bytes.len()
        invariant
            i <= bytes.len(),
            text@ == hex(bytes@.take(i as int)),
        decreases bytes.len() - i,
    {
        assert(bytes@.take(i + 1).drop_last() =~= bytes@.take(i as int));
        assert(bytes@.take(i + 1).last() == bytes@[i as int]);
        append_hex(&mut text, bytes[i]);
        i = i + 1;
    }
    assert(bytes@.take(bytes@.len() as int) =~= bytes@);
    text
}

/// Random bytes with the version and the variant of a random UUID.
pub open spec fn stamped(bytes: Seq<u8>) -> Seq<u8> {
    bytes.update(6, (64 + bytes[6] % 16) as u8).update(8, (128 + bytes[8] % 64) as u8)
}

/// The text of a UUID: five groups of hexadecimal digits.
pub open spec fn uuid_text(bytes: Seq<u8>) -> Seq<char> {
    hex(bytes.subrange(0, 4)) + seq!['-'] + hex(bytes.subrange(4, 6)) + seq!['-'] + hex(
        bytes.subrange(6, 8),
    ) + seq!['-'] + hex(bytes.subrange(8, 10)) + seq!['-'] + hex(bytes.subrange(10, 16))
}

fn append_group(text: &mut String, bytes: &[u8; 16], from: usize, to: usize)
    requires
        from <= to <= 16,
    ensures
        final(text)@ == old(text)@ + hex(bytes@.subrange(from as int, to as int)),
{
    let ghost start = text@;
    let mut i: usize = from;
    assert(bytes@.subrange(from as int, from as int) =~= Seq::<u8>::empty());
    assert(start + hex(bytes@.subrange(from as int, from as int)) =~= start);
    while i < to
        invariant
            from <= i <= to <= 16,
            text@ == start + hex(bytes@.subrange(from as int, i as int)),
        decreases to - i,
    {
        let ghost taken = bytes@.subrange(from as int, i + 1);
        assert(taken.drop_last() =~= bytes@.subrange(from as int, i as int));
        assert(taken.last() == bytes@[i as int]);
        append_hex(text, bytes[i]);
        assert(text@ =~= start + hex(taken));
        i = i + 1;
    }
}

/// The text of a random UUID made from sixteen random bytes.
pub fn uuid_v4(random: &[u8; 16]) -> (text: String)
    ensures
        text@ == uuid_text(stamped(random@)),
{
    let mut bytes: [u8; 16] = *random;
    let b6: u8 = bytes[6];
    let b8: u8 = bytes[8];
    bytes[6] = b6 % 16 + 64;
    bytes[8] = b8 % 64 + 128;
    assert(bytes@ =~= stamped(random@));
    proof {
        reveal_strlit("-");
        assert("-"@ =~= seq!['-']);
    }
    let mut text: String = String::new();
    append_group(&mut text, &bytes, 0, 4);
    text.append("-");
    append_group(&mut text, &bytes, 4, 6);
    text.append("-");
    append_group(&mut text, &bytes, 6, 8);
    text.append("-");
    append_group(&mut text, &bytes, 8, 10);
    text.append("-");
    append_group(&mut text, &bytes, 10, 16);
    assert(text@ =~= uuid_text(bytes@));
    text
}

proof fn lemma_hex_len(bytes: Seq<u8>)
    ensures
        hex(bytes).len() == 2 * bytes.len(),
    decreases bytes.len(),
{
    if bytes.len() > 0 {
        lemma_hex_len(bytes.drop_last());
    }
}

/// A random UUID is 36 characters long, names version 4 and the variant of its
/// layout.
pub proof fn law_uuids_name_their_version(random: Seq<u8>)
    requires
        random.len() == 16,
    ensures
        uuid_text(stamped(random)).len() == 36,
        uuid_text(stamped(random))[14] == '4',
        ({
            let c = uuid_text(stamped(random))[19];
            c == '8' || c == '9' || c == 'a' || c == 'b'
        }),
{
    let bytes = stamped(random);
    let g0 = bytes.subrange(0, 4);
    let g1 = bytes.subrange(4, 6);
    let g2 = bytes.subrange(6, 8);
    let g3 = bytes.subrange(8, 10);
    let g4 = bytes.subrange(10, 16);
    lemma_hex_len(g0);
    lemma_hex_len(g1);
    lemma_hex_len(g2);
    lemma_hex_len(g3);
    lemma_hex_len(g4);
    lemma_hex_first(g2);
    lemma_hex_first(g3);
    let text = uuid_text(bytes);
    assert(text[14] == hex(g2)[0]);
    assert(text[19] == hex(g3)[0]);
    assert(g2[0] == (64 + random[6] % 16) as u8);
    assert(g3[0] == (128 + random[8] % 64) as u8);
    assert(8 <= g3[0] / 16 <= 11);
    assert(g2[0] / 16 == 4);
}

proof fn lemma_hex_first(bytes: Seq<u8>)
    requires
        bytes.len() > 0,
    ensures
        hex(bytes).len() >= 2,
        hex(bytes)[0] == hex_char((bytes[0] / 16) as nat),
    decreases bytes.len(),
{
    lemma_hex_len(bytes);
    let front = bytes.drop_last();
    if bytes.len() == 1 {
        assert(hex(front) =~= Seq::<char>::empty());
        assert(hex(bytes) =~= hex_byte(bytes[0]));
    } else {
        lemma_hex_first(front);
    }
}

/// What reserving an identity does: one that is taken is refused, any other one is
/// reserved.
pub open spec fn id_reserved(
    original_ids: Seq<String>,
    photo_ids: Seq<String>,
    before: Seq<String>,
    id: String,
    after: Seq<String>,
    result: Result<String, PersistenceError>,
) -> bool {
    if texts(original_ids).contains(id@) || texts(photo_ids).contains(id@) || texts(
        before,
    ).contains(id@) {
        result == Err::<String, PersistenceError>(PersistenceError::IdCollision) && after == before
    } else {
        result == Ok::<String, PersistenceError>(id) && texts(after) == texts(before).push(id@)
    }
}

/// Reserves an identity that no Original File, no Photo and no earlier
/// reservation has.
pub fn reserve_library_id(
    original_ids: &Vec<String>,
    photo_ids: &Vec<String>,
    reserved: &mut Vec<String>,
    id: String,
) -> (result: Result<String, PersistenceError>)
    ensures
        id_reserved(original_ids@, photo_ids@, old(reserved)@, id, final(reserved)@, result),
{
    if contains_text(reserved, &id) || contains_text(original_ids, &id) || contains_text(
        photo_ids,
        &id,
    ) {
        return Err(PersistenceError::IdCollision);
    }
    proof {
        lemma_texts_push(reserved@, id);
    }
    reserved.push(id.clone());
    Ok(id)
}

/// Milliseconds since the epoch, as far as the clock reads after it and the
/// number fits; else zero.
pub fn unix_millis(elapsed: Option<u128>) -> (millis: i64)
    ensures
        millis == (if elapsed is Some && elapsed->0 <= i64::MAX {
            elapsed->0 as int
        } else {
            0
        }),
{
    match elapsed {
        Some(value) => if value <= 0x7fff_ffff_ffff_ffff {
            value as i64
        } else {
            0
        },
        None => 0,
    }
}

spec fn digit_of(c: char) -> int {
    if '0' <= c <= '9' {
        (c as int) - 48
    } else {
        (c as int) - 87
    }
}

proof fn lemma_hex_digits(bytes: Seq<u8>, i: int)
    requires
        0 <= i < bytes.len(),
    ensures
        hex(bytes).len() == 2 * bytes.len(),
        bytes[i] == 16 * digit_of(hex(bytes)[2 * i]) + digit_of(hex(bytes)[2 * i + 1]),
        ('0' <= hex(bytes)[2 * i] <= '9') || ('a' <= hex(bytes)[2 * i] <= 'f'),
        ('0' <= hex(bytes)[2 * i + 1] <= '9') || ('a' <= hex(bytes)[2 * i + 1] <= 'f'),
    decreases bytes.len(),
{
    lemma_hex_len(bytes);
    lemma_hex_len(bytes.drop_last());
    if i < bytes.len() - 1 {
        lemma_hex_digits(bytes.drop_last(), i);
        assert(hex(bytes)[2 * i] == hex(bytes.drop_last())[2 * i]);
        assert(hex(bytes)[2 * i + 1] == hex(bytes.drop_last())[2 * i + 1]);
    } else {
        assert(hex(bytes)[2 * i] == hex_byte(bytes[i])[0]);
        assert(hex(bytes)[2 * i + 1] == hex_byte(bytes[i])[1]);
    }
}

/// Bytes are written by two lower-case hexadecimal digits each, the higher one first.
pub proof fn law_bytes_are_written_by_two_digits(bytes: Vec<u8>, text: String, i: int)
    requires
        call_ensures(hex_text, (&bytes,), text),
        0 <= i < bytes.len(),
    ensures
        text@.len() == 2 * bytes.len(),
        ({
            let high = text@[2 * i];
            let low = text@[2 * i + 1];
            &&& ('0' <= high <= '9') || ('a' <= high <= 'f')
            &&& ('0' <= low <= '9') || ('a' <= low <= 'f')
            &&& bytes@[i] == 16 * (if high <= '9' {
                (high as int) - 48
            } else {
                (high as int) - 87
            }) + (if low <= '9' {
                (low as int) - 48
            } else {
                (low as int) - 87
            })
        }),
{
    lemma_hex_digits(bytes@, i);
}

/// The time since the epoch is told in milliseconds as it was measured; a time that
/// cannot be told is the epoch.
pub proof fn law_times_are_told_as_measured(elapsed: Option<u128>, millis: i64)
    requires
        call_ensures(unix_millis, (elapsed,), millis),
    ensures
        0 <= millis,
        elapsed matches Some(n) ==> (n <= 0x7fff_ffff_ffff_ffff ==> millis == n),
        millis > 0 ==> elapsed == Some(millis as u128),
        elapsed is None ==> millis == 0,
{
}

/// A reserved identity is that of no Original File and no Photo and was not reserved
/// before; one that is refused is one of those.
pub proof fn law_reserved_identities_are_new(
    original_ids: Seq<String>,
    photo_ids: Seq<String>,
    before: Seq<String>,
    id: String,
    after: Seq<String>,
    result: Result<String, PersistenceError>,
    i: int,
)
    requires
        id_reserved(original_ids, photo_ids, before, id, after, result),
    ensures
        result is Ok ==> {
            &&& result->Ok_0@ == id@
            &&& 0 <= i < original_ids.len() ==> original_ids[i]@ != id@
            &&& 0 <= i < photo_ids.len() ==> photo_ids[i]@ != id@
            &&& 0 <= i < before.len() ==> before[i]@ != id@ && after[i]@ == before[i]@
            &&& after.len() == before.len() + 1
            &&& after[before.len() as int]@ == id@
        },
        result is Err ==> {
            &&& result->Err_0 is IdCollision
            &&& after == before
        },
        0 <= i < original_ids.len() && original_ids[i]@ == id@ ==> result is Err,
        0 <= i < photo_ids.len() && photo_ids[i]@ == id@ ==> result is Err,
        0 <= i < before.len() && before[i]@ == id@ ==> result is Err,
        original_ids.len() == 0 && photo_ids.len() == 0 && before.len() == 0 ==> result is Ok,
{
    if 0 <= i < original_ids.len() {
        assert(texts(original_ids)[i] == original_ids[i]@);
    }
    if 0 <= i < photo_ids.len() {
        assert(texts(photo_ids)[i] == photo_ids[i]@);
    }
    assert(texts(after).len() == after.len());
    if 0 <= i < before.len() {
        assert(texts(before)[i] == before[i]@);
        assert(result is Ok ==> texts(after)[i] == after[i]@);
    }
    if result is Ok {
        assert(texts(after)[before.len() as int] == after[before.len() as int]@);
    }
}

} // verus!
