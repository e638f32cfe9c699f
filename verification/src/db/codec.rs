//! The byte layout shared by the two files of the store: unsigned integers of
//! fixed width, least significant byte first, and texts as a 64-bit length
//! followed by their UTF-8 bytes.

use vstd::prelude::*;
use vstd::utf8::{decode_utf8, encode_utf8, valid_utf8};
use vstd::slice::{slice_subrange, slice_to_vec};
use crate::errors::Error;
use crate::text::string_from_utf8;

verus! {

/// The `width` low bytes of `v`, least significant first.
pub open spec fn le_bytes(v: nat, width: nat) -> Seq<u8>
    decreases width,
{
    if width == 0 {
        Seq::empty()
    } else {
        seq![(v % 256) as u8] + le_bytes(v / 256, (width - 1) as nat)
    }
}

/// The number that `b` holds, least significant byte first.
pub open spec fn le_value(b: Seq<u8>) -> nat
    decreases b.len(),
{
    if b.len() == 0 {
        0
    } else {
        b[0] as nat + 256 * le_value(b.drop_first())
    }
}

/// `le_bytes` gives `width` bytes.
pub proof fn lemma_le_bytes_len(v: nat, width: nat)
    ensures
        le_bytes(v, width).len() == width,
    decreases width,
{
    if width > 0 {
        lemma_le_bytes_len(v / 256, (width - 1) as nat);
    }
}

/// Reading back what `le_bytes` wrote gives the number, where it fits the
/// width: below `2^32` in four bytes, below `2^64` in eight.
pub proof fn lemma_le_value_of_bytes(v: nat, width: nat)
    requires
        width == 4 && v < 0x1_0000_0000 || width == 8 && v < 0x1_0000_0000_0000_0000,
    ensures
        le_value(le_bytes(v, width)) == v,
{
    lemma_le_value_mod(v, width);
    lemma_pow256();
    vstd::arithmetic::div_mod::lemma_small_mod(v, pow256(width));
}

/// Reading back what `le_bytes` wrote gives the number modulo `256^width`.
pub proof fn lemma_le_value_mod(v: nat, width: nat)
    ensures
        pow256(width) > 0,
        le_value(le_bytes(v, width)) == v % pow256(width),
    decreases width,
{
    if width == 0 {
        assert(le_bytes(v, width).len() == 0);
    } else {
        let w = (width - 1) as nat;
        lemma_le_value_mod(v / 256, w);
        let b = le_bytes(v, width);
        assert(b.drop_first() =~= le_bytes(v / 256, w));
        assert(b[0] == (v % 256) as u8);
        vstd::arithmetic::div_mod::lemma_mod_breakdown(v as int, 256, pow256(w) as int);
    }
}

/// 256 to the power `n`.
pub open spec fn pow256(n: nat) -> nat
    decreases n,
{
    if n == 0 {
        1
    } else {
        256 * pow256((n - 1) as nat)
    }
}

/// Writing the number that `b` holds gives `b` back.
pub proof fn lemma_le_bytes_of_value(b: Seq<u8>)
    ensures
        le_bytes(le_value(b), b.len()) == b,
        le_value(b) < pow256(b.len()),
    decreases b.len(),
{
    if b.len() == 0 {
        assert(le_bytes(le_value(b), 0) =~= b);
    } else {
        let t = b.drop_first();
        lemma_le_bytes_of_value(t);
        let v = le_value(b);
        assert(v % 256 == b[0] as nat && v / 256 == le_value(t)) by {
            vstd::arithmetic::div_mod::lemma_fundamental_div_mod_converse(
                v as int,
                256,
                le_value(t) as int,
                b[0] as int,
            );
        }
        assert(le_bytes(v, b.len()) =~= b);
    }
}

/// The values of `pow256` at the two widths in use.
pub proof fn lemma_pow256()
    ensures
        pow256(4) == 0x1_0000_0000,
        pow256(8) == 0x1_0000_0000_0000_0000,
{
    reveal_with_fuel(pow256, 9);
}

/// Appends the four bytes of `v`.
pub fn put_u32(out: &mut Vec<u8>, v: u32)
    ensures
        final(out)@ == old(out)@ + le_bytes(v as nat, 4),
{
    let ghost before = out@;
    out.push((v % 256) as u8);
    out.push((v / 256 % 256) as u8);
    out.push((v / 256 / 256 % 256) as u8);
    out.push((v / 256 / 256 / 256 % 256) as u8);
    proof {
        reveal_with_fuel(le_bytes, 5);
        assert(out@ =~= before + le_bytes(v as nat, 4));
    }
}

/// Appends the eight bytes of `v`.
pub fn put_u64(out: &mut Vec<u8>, v: u64)
    ensures
        final(out)@ == old(out)@ + le_bytes(v as nat, 8),
{
    let ghost before = out@;
    let mut rest: u64 = v;
    let mut i: usize = 0;
    while i < 8
        invariant
            i <= 8,
            before + le_bytes(v as nat, 8) == out@ + le_bytes(rest as nat, (8 - i) as nat),
        decreases 8 - i,
    {
        proof {
            let w = (8 - i) as nat;
            assert(le_bytes(rest as nat, w) == seq![(rest % 256) as u8] + le_bytes(
                (rest / 256) as nat,
                (w - 1) as nat,
            ));
            assert(out@ + (seq![(rest % 256) as u8] + le_bytes(
                (rest / 256) as nat,
                (w - 1) as nat,
            )) =~= out@.push((rest % 256) as u8) + le_bytes((rest / 256) as nat, (w - 1) as nat));
        }
        out.push((rest % 256) as u8);
        rest = rest / 256;
        i += 1;
    }
    proof {
        assert(le_bytes(rest as nat, 0) =~= Seq::<u8>::empty());
        assert(out@ + Seq::<u8>::empty() =~= out@);
    }
}

/// The number in the four bytes of `bytes` from `pos`.
pub fn get_u32(bytes: &[u8], pos: usize) -> (v: u32)
    requires
        pos + 4 <= bytes.len(),
    ensures
        v == le_value(bytes@.subrange(pos as int, pos + 4)),
{
    let ghost field = bytes@.subrange(pos as int, pos + 4);
    let mut v: u64 = 0;
    let mut i: usize = 4;
    proof {
        assert(field.skip(4) =~= Seq::<u8>::empty());
    }
    while i > 0
        invariant
            i <= 4,
            pos + 4 <= bytes.len(),
            field == bytes@.subrange(pos as int, pos + 4),
            v == le_value(field.skip(i as int)),
            v < pow256((4 - i) as nat),
            pow256((4 - i) as nat) <= 0x1_0000_0000,
        decreases i,
    {
        i -= 1;
        proof {
            assert(field.skip(i as int).drop_first() =~= field.skip(i + 1));
            assert(field.skip(i as int)[0] == bytes@[pos + i]);
            reveal_with_fuel(pow256, 5);
        }
        v = v * 256 + bytes[pos + i] as u64;
    }
    proof {
        assert(field.skip(0) =~= field);
        reveal_with_fuel(pow256, 5);
    }
    v as u32
}

/// The number in the eight bytes of `bytes` from `pos`.
pub fn get_u64(bytes: &[u8], pos: usize) -> (v: u64)
    requires
        pos + 8 <= bytes.len(),
    ensures
        v == le_value(bytes@.subrange(pos as int, pos + 8)),
{
    let ghost field = bytes@.subrange(pos as int, pos + 8);
    let mut v: u128 = 0;
    let mut i: usize = 8;
    proof {
        assert(field.skip(8) =~= Seq::<u8>::empty());
    }
    while i > 0
        invariant
            i <= 8,
            pos + 8 <= bytes.len(),
            field == bytes@.subrange(pos as int, pos + 8),
            v == le_value(field.skip(i as int)),
            v < pow256((8 - i) as nat),
            pow256((8 - i) as nat) <= 0x1_0000_0000_0000_0000,
        decreases i,
    {
        i -= 1;
        proof {
            assert(field.skip(i as int).drop_first() =~= field.skip(i + 1));
            assert(field.skip(i as int)[0] == bytes@[pos + i]);
            reveal_with_fuel(pow256, 9);
        }
        v = v * 256 + bytes[pos + i] as u128;
    }
    proof {
        assert(field.skip(0) =~= field);
        reveal_with_fuel(pow256, 9);
    }
    v as u64
}

/// The bytes of a text: the length of its UTF-8 form in eight bytes, then
/// that form.
pub open spec fn text_bytes(s: Seq<char>) -> Seq<u8> {
    le_bytes(encode_utf8(s).len(), 8) + encode_utf8(s)
}

/// Whether the length of a text fits its length field.
pub open spec fn text_fits(s: Seq<char>) -> bool {
    encode_utf8(s).len() < 0x1_0000_0000_0000_0000
}

/// Reads one 64-bit number from the front of `b`: the number and the count
/// of bytes it took.
pub open spec fn parse_u64(b: Seq<u8>) -> Option<(u64, nat)> {
    if b.len() < 8 {
        None
    } else {
        Some((le_value(b.take(8)) as u64, 8))
    }
}

/// Reads one text from the front of `b`: the text and the count of bytes it
/// took. There is none where `b` ends early or the bytes are not UTF-8.
pub open spec fn parse_text(b: Seq<u8>) -> Option<(Seq<char>, nat)> {
    if b.len() < 8 {
        None
    } else {
        let n = le_value(b.take(8));
        if b.len() - 8 < n || !valid_utf8(b.subrange(8, 8 + n as int)) {
            None
        } else {
            Some((decode_utf8(b.subrange(8, 8 + n as int)), 8 + n))
        }
    }
}

/// A number written and followed by anything is read back.
pub proof fn lemma_parse_u64_complete(v: u64, rest: Seq<u8>)
    ensures
        parse_u64(le_bytes(v as nat, 8) + rest) == Some((v, 8nat)),
{
    lemma_le_bytes_len(v as nat, 8);
    lemma_le_value_of_bytes(v as nat, 8);
    assert((le_bytes(v as nat, 8) + rest).take(8) =~= le_bytes(v as nat, 8));
}

/// What was read as a number is what writing that number gives.
pub proof fn lemma_parse_u64_sound(b: Seq<u8>)
    ensures
        parse_u64(b) matches Some((v, n)) ==> n == 8 && b.len() >= 8 && b.take(8) == le_bytes(
            v as nat,
            8,
        ),
{
    lemma_le_bytes_of_value(b.take(8));
    lemma_pow256();
}

/// A text written and followed by anything is read back.
pub proof fn lemma_parse_text_complete(s: Seq<char>, rest: Seq<u8>)
    requires
        text_fits(s),
    ensures
        parse_text(text_bytes(s) + rest) == Some((s, text_bytes(s).len())),
{
    let body = encode_utf8(s);
    let b = text_bytes(s) + rest;
    lemma_le_bytes_len(body.len(), 8);
    lemma_le_value_of_bytes(body.len(), 8);
    assert(b.take(8) =~= le_bytes(body.len(), 8));
    assert(b.subrange(8, 8 + body.len() as int) =~= body);
    vstd::utf8::encode_utf8_valid_utf8(s);
    vstd::utf8::encode_utf8_decode_utf8(s);
}

/// What was read as a text is what writing that text gives.
pub proof fn lemma_parse_text_sound(b: Seq<u8>)
    ensures
        parse_text(b) matches Some((s, n)) ==> n <= b.len() && text_fits(s) && b.take(n as int)
            == text_bytes(s),
{
    if parse_text(b) is None {
        return ;
    }
    let n = le_value(b.take(8));
    let body = b.subrange(8, 8 + n as int);
    lemma_le_bytes_of_value(b.take(8));
    lemma_pow256();
    vstd::utf8::decode_utf8_encode_utf8(body);
    assert(b.take(8 + n as int) =~= b.take(8) + body);
}

/// Appends the bytes of a text.
pub fn put_text(out: &mut Vec<u8>, s: &str)
    ensures
        final(out)@ == old(out)@ + text_bytes(s@),
        text_fits(s@),
{
    let ghost before = out@;
    let body = s.as_bytes();
    put_u64(out, body.len() as u64);
    let ghost middle = out@;
    out.extend_from_slice(body);
    proof {
        assert(out@ =~= middle + body@);
        assert(out@ =~= before + text_bytes(s@));
    }
}

/// Reads a 64-bit number at `pos`: the number and the position after it.
pub fn read_u64(bytes: &[u8], pos: usize) -> (r: Option<(u64, usize)>)
    requires
        pos <= bytes.len(),
    ensures
        match r {
            Some((v, next)) => pos <= next <= bytes.len() && parse_u64(bytes@.skip(pos as int))
                == Some((v, (next - pos) as nat)),
            None => parse_u64(bytes@.skip(pos as int)) is None,
        },
{
    if bytes.len() - pos < 8 {
        return None;
    }
    let v = get_u64(bytes, pos);
    proof {
        assert(bytes@.skip(pos as int).take(8) =~= bytes@.subrange(pos as int, pos + 8));
        lemma_le_bytes_of_value(bytes@.subrange(pos as int, pos + 8));
        lemma_pow256();
    }
    Some((v, pos + 8))
}

/// Reads a text at `pos`: the text and the position after it.
pub fn read_text(bytes: &[u8], pos: usize) -> (r: Option<(String, usize)>)
    requires
        pos <= bytes.len(),
    ensures
        match r {
            Some((s, next)) => pos <= next <= bytes.len() && parse_text(
                bytes@.skip(pos as int),
            ) == Some((s@, (next - pos) as nat)),
            None => parse_text(bytes@.skip(pos as int)) is None,
        },
{
    if bytes.len() - pos < 8 {
        return None;
    }
    let n = get_u64(bytes, pos);
    let room: usize = bytes.len() - pos - 8;
    proof {
        assert(bytes@.skip(pos as int).take(8) =~= bytes@.subrange(pos as int, pos + 8));
    }
    if n > room as u64 {
        return None;
    }
    let start: usize = pos + 8;
    let end: usize = start + n as usize;
    let body = slice_to_vec(slice_subrange(bytes, start, end));
    proof {
        assert(bytes@.skip(pos as int).subrange(8, 8 + n as int) =~= bytes@.subrange(
            start as int,
            end as int,
        ));
    }
    match string_from_utf8(body) {
        Some(s) => Some((s, end)),
        None => None,
    }
}

/// The bytes of a list of items, one after the other, each written by `enc`.
pub open spec fn items_bytes<T>(items: Seq<T>, enc: spec_fn(T) -> Seq<u8>) -> Seq<u8>
    decreases items.len(),
{
    if items.len() == 0 {
        Seq::empty()
    } else {
        enc(items[0]) + items_bytes(items.drop_first(), enc)
    }
}

/// Reads `count` items from the front of `b`, each by `parse`: the items and
/// the count of bytes they took.
pub open spec fn parse_items<T>(
    b: Seq<u8>,
    count: nat,
    parse: spec_fn(Seq<u8>) -> Option<(T, nat)>,
) -> Option<(Seq<T>, nat)>
    decreases count,
{
    if count == 0 {
        Some((Seq::empty(), 0nat))
    } else {
        match parse(b) {
            None => None,
            Some((item, n)) => match parse_items(b.skip(n as int), (count - 1) as nat, parse) {
                None => None,
                Some((rest, m)) => Some((seq![item] + rest, n + m)),
            },
        }
    }
}

/// The result of reading a list whose first items, `done`, took `used` bytes
/// and whose other items read as `tail`.
pub open spec fn joined<T>(done: Seq<T>, used: nat, tail: Option<(Seq<T>, nat)>) -> Option<
    (Seq<T>, nat),
> {
    match tail {
        None => None,
        Some((rest, m)) => Some((done + rest, used + m)),
    }
}

/// Reading on after one more item: where `item` is read at `pos` in `n`
/// bytes, the list read from `start` is `done`, `item` and what is read after
/// it; where none is read at `pos`, no list is read.
pub proof fn lemma_parse_items_step<T>(
    b: Seq<u8>,
    start: int,
    pos: int,
    count: nat,
    done: Seq<T>,
    parse: spec_fn(Seq<u8>) -> Option<(T, nat)>,
)
    requires
        0 <= start <= pos <= b.len(),
        count > 0,
        parse(b.skip(pos)) matches Some((item, n)) ==> pos + n <= b.len(),
    ensures
        match parse(b.skip(pos)) {
            None => joined(done, (pos - start) as nat, parse_items(b.skip(pos), count, parse))
                is None,
            Some((item, n)) => joined(
                done,
                (pos - start) as nat,
                parse_items(b.skip(pos), count, parse),
            ) == joined(
                done.push(item),
                (pos + n - start) as nat,
                parse_items(b.skip(pos + n), (count - 1) as nat, parse),
            ),
        },
{
    if let Some((item, n)) = parse(b.skip(pos)) {
        assert(b.skip(pos).skip(n as int) =~= b.skip(pos + n));
        match parse_items(b.skip(pos + n), (count - 1) as nat, parse) {
            None => {},
            Some((rest, m)) => {
                assert(done + (seq![item] + rest) =~= done.push(item) + rest);
            },
        }
    }
}

/// Reading no item takes no byte.
pub proof fn lemma_parse_items_none<T>(
    b: Seq<u8>,
    done: Seq<T>,
    used: nat,
    parse: spec_fn(Seq<u8>) -> Option<(T, nat)>,
)
    ensures
        joined(done, used, parse_items(b, 0, parse)) == Some((done, used)),
{
    assert(done + Seq::<T>::empty() =~= done);
}

/// `enc` and `parse` fit together on the items that meet `valid`: what `enc`
/// writes, `parse` reads back whatever follows, and what `parse` reads is
/// valid and is what `enc` writes for it.
pub open spec fn layout_of<T>(
    valid: spec_fn(T) -> bool,
    enc: spec_fn(T) -> Seq<u8>,
    parse: spec_fn(Seq<u8>) -> Option<(T, nat)>,
) -> bool {
    &&& forall|x: T, rest: Seq<u8>|
        valid(x) ==> #[trigger] parse(enc(x) + rest) == Some((x, enc(x).len()))
    &&& forall|b: Seq<u8>|
        (#[trigger] parse(b)) matches Some((x, n)) ==> n <= b.len() && valid(x) && b.take(
            n as int,
        ) == enc(x)
}

/// Appending an item appends its bytes.
pub proof fn lemma_items_bytes_push<T>(items: Seq<T>, x: T, enc: spec_fn(T) -> Seq<u8>)
    ensures
        items_bytes(items.push(x), enc) == items_bytes(items, enc) + enc(x),
    decreases items.len(),
{
    if items.len() == 0 {
        assert(items.push(x).drop_first() =~= Seq::<T>::empty());
        assert(items.push(x)[0] == x);
        assert(items_bytes(Seq::<T>::empty(), enc) =~= Seq::<u8>::empty());
        assert(items_bytes(items.push(x), enc) =~= enc(x) + Seq::<u8>::empty());
        assert(items_bytes(items, enc) + enc(x) =~= enc(x));
    } else {
        lemma_items_bytes_push(items.drop_first(), x, enc);
        assert(items.push(x).drop_first() =~= items.drop_first().push(x));
        assert(items_bytes(items.push(x), enc) =~= items_bytes(items, enc) + enc(x));
    }
}

/// A list of valid items written and followed by anything is read back.
pub proof fn lemma_parse_items_complete<T>(
    items: Seq<T>,
    rest: Seq<u8>,
    valid: spec_fn(T) -> bool,
    enc: spec_fn(T) -> Seq<u8>,
    parse: spec_fn(Seq<u8>) -> Option<(T, nat)>,
)
    requires
        layout_of(valid, enc, parse),
        forall|i: int| 0 <= i < items.len() ==> valid(#[trigger] items[i]),
    ensures
        parse_items(items_bytes(items, enc) + rest, items.len(), parse) == Some(
            (items, items_bytes(items, enc).len()),
        ),
    decreases items.len(),
{
    if items.len() > 0 {
        let x = items[0];
        let tail = items.drop_first();
        let b = items_bytes(items, enc) + rest;
        let after = items_bytes(tail, enc) + rest;
        assert(b =~= enc(x) + after);
        assert(valid(x));
        assert(parse(enc(x) + after) == Some((x, enc(x).len())));
        assert(b.skip(enc(x).len() as int) =~= after);
        assert forall|i: int| 0 <= i < tail.len() implies valid(#[trigger] tail[i]) by {
            assert(tail[i] == items[i + 1]);
        }
        lemma_parse_items_complete(tail, rest, valid, enc, parse);
        assert(seq![x] + tail =~= items);
    }
}

/// What was read as a list is a list of valid items, and is what writing
/// that list gives.
pub proof fn lemma_parse_items_sound<T>(
    b: Seq<u8>,
    count: nat,
    valid: spec_fn(T) -> bool,
    enc: spec_fn(T) -> Seq<u8>,
    parse: spec_fn(Seq<u8>) -> Option<(T, nat)>,
)
    requires
        layout_of(valid, enc, parse),
    ensures
        parse_items(b, count, parse) matches Some((items, n)) ==> {
            &&& items.len() == count
            &&& n <= b.len()
            &&& forall|i: int| 0 <= i < count ==> valid(#[trigger] items[i])
            &&& b.take(n as int) == items_bytes(items, enc)
        },
    decreases count,
{
    if parse_items(b, count, parse) is None {
    } else if count == 0 {
        assert(b.take(0) =~= Seq::<u8>::empty());
    } else {
        let (item, n) = parse(b)->0;
        assert(parse(b) is Some);
        let after = b.skip(n as int);
        lemma_parse_items_sound(after, (count - 1) as nat, valid, enc, parse);
        let (rest, m) = parse_items(after, (count - 1) as nat, parse)->0;
        let all = seq![item] + rest;
        assert(all.drop_first() =~= rest);
        assert(b.take((n + m) as int) =~= b.take(n as int) + after.take(m as int));
        assert forall|i: int| 0 <= i < count implies valid(#[trigger] all[i]) by {
            if i > 0 {
                assert(all[i] == rest[i - 1]);
            }
        }
    }
}

/// The most bytes that a file may hold after its version: 32 MiB.
pub const MAX_SIZE: usize = 0x200_0000;

/// The bytes of a file: the version in four bytes, the count of items in
/// eight, then the items.
pub open spec fn file_bytes<T>(version: u32, items: Seq<T>, enc: spec_fn(T) -> Seq<u8>) -> Seq<
    u8,
> {
    le_bytes(version as nat, 4) + (le_bytes(items.len(), 8) + items_bytes(items, enc))
}

/// The version that the first four bytes of a file name.
pub open spec fn header_version(b: Seq<u8>) -> u32
    recommends
        b.len() >= 4,
{
    le_value(b.take(4)) as u32
}

/// The failure for bytes that are no file: the unsupported version where
/// the header names another than `version`; corrupt data else, that is for
/// fewer bytes than a header takes and for a supported version with a body
/// that cannot be read.
pub open spec fn file_failure(b: Seq<u8>, version: u32) -> Error {
    if b.len() >= 4 && header_version(b) != version {
        Error::UnsupportedVersion(header_version(b))
    } else {
        Error::CorruptData
    }
}

/// Whether a list can be written as a file: every item is valid and what
/// follows the version stays within `MAX_SIZE`.
pub open spec fn fits_file<T>(
    items: Seq<T>,
    valid: spec_fn(T) -> bool,
    enc: spec_fn(T) -> Seq<u8>,
) -> bool {
    &&& forall|i: int| 0 <= i < items.len() ==> valid(#[trigger] items[i])
    &&& 8 + items_bytes(items, enc).len() <= MAX_SIZE
}

/// Reads a file: the list it holds, or why it holds none. The version is
/// looked at before anything that follows it.
pub open spec fn parse_file<T>(
    b: Seq<u8>,
    version: u32,
    parse: spec_fn(Seq<u8>) -> Option<(T, nat)>,
) -> Result<Seq<T>, Error> {
    if b.len() < 4 {
        Err(Error::CorruptData)
    } else if header_version(b) != version {
        Err(Error::UnsupportedVersion(header_version(b)))
    } else if b.len() - 4 > MAX_SIZE || b.len() < 12 {
        Err(Error::CorruptData)
    } else {
        match parse_items(b.skip(12), le_value(b.subrange(4, 12)), parse) {
            Some((items, n)) => if n == b.len() - 12 {
                Ok(items)
            } else {
                Err(Error::CorruptData)
            },
            None => Err(Error::CorruptData),
        }
    }
}

/// Each item takes at least one byte where the layout reads back what it
/// writes, so a list has no more items than bytes.
pub proof fn lemma_items_bytes_len<T>(
    items: Seq<T>,
    valid: spec_fn(T) -> bool,
    enc: spec_fn(T) -> Seq<u8>,
    parse: spec_fn(Seq<u8>) -> Option<(T, nat)>,
)
    requires
        layout_of(valid, enc, parse),
        forall|i: int| 0 <= i < items.len() ==> valid(#[trigger] items[i]),
        forall|x: T| valid(x) ==> (#[trigger] enc(x)).len() >= 1,
    ensures
        items.len() <= items_bytes(items, enc).len(),
    decreases items.len(),
{
    if items.len() > 0 {
        let tail = items.drop_first();
        assert forall|i: int| 0 <= i < tail.len() implies valid(#[trigger] tail[i]) by {
            assert(tail[i] == items[i + 1]);
        }
        lemma_items_bytes_len(tail, valid, enc, parse);
        assert(valid(items[0]));
    }
}

/// Reading a written file gives the list back: every list that fits a file
/// is read from its bytes, unchanged.
pub proof fn lemma_file_round_trip<T>(
    version: u32,
    items: Seq<T>,
    valid: spec_fn(T) -> bool,
    enc: spec_fn(T) -> Seq<u8>,
    parse: spec_fn(Seq<u8>) -> Option<(T, nat)>,
)
    requires
        layout_of(valid, enc, parse),
        forall|x: T| valid(x) ==> (#[trigger] enc(x)).len() >= 1,
        fits_file(items, valid, enc),
    ensures
        parse_file(file_bytes(version, items, enc), version, parse) == Ok::<Seq<T>, Error>(items),
{
    let body = items_bytes(items, enc);
    let b = file_bytes(version, items, enc);
    lemma_items_bytes_len(items, valid, enc, parse);
    lemma_le_bytes_len(version as nat, 4);
    lemma_le_bytes_len(items.len(), 8);
    lemma_le_value_of_bytes(version as nat, 4);
    lemma_le_value_of_bytes(items.len(), 8);
    assert(b.take(4) =~= le_bytes(version as nat, 4));
    assert(b.subrange(4, 12) =~= le_bytes(items.len(), 8));
    assert(b.skip(12) =~= body + Seq::<u8>::empty());
    lemma_parse_items_complete(items, Seq::<u8>::empty(), valid, enc, parse);
}

/// What is read from a file is a list that fits a file, and writing it gives
/// the bytes back.
pub proof fn lemma_file_sound<T>(
    b: Seq<u8>,
    version: u32,
    valid: spec_fn(T) -> bool,
    enc: spec_fn(T) -> Seq<u8>,
    parse: spec_fn(Seq<u8>) -> Option<(T, nat)>,
)
    requires
        layout_of(valid, enc, parse),
    ensures
        parse_file(b, version, parse) matches Ok(items) ==> fits_file(items, valid, enc) && b
            == file_bytes(version, items, enc),
{
    if let Ok(items) = parse_file(b, version, parse) {
        let count = le_value(b.subrange(4, 12));
        lemma_parse_items_sound(b.skip(12), count, valid, enc, parse);
        lemma_le_bytes_of_value(b.take(4));
        lemma_le_bytes_of_value(b.subrange(4, 12));
        lemma_pow256();
        assert(b.skip(12).take(b.len() - 12) =~= b.skip(12));
        assert(b =~= b.take(4) + (b.subrange(4, 12) + b.skip(12)));
    }
}

} // verus!
