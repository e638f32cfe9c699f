//! The keyword cache: aliases that expire a day after they were last set.

use vstd::prelude::*;
use crate::db::codec::{
    file_bytes, file_failure, fits_file, get_u32, get_u64, header_version, items_bytes, joined,
    layout_of,
    le_bytes, lemma_file_round_trip, lemma_file_sound, lemma_items_bytes_push,
    lemma_le_bytes_len, lemma_parse_items_none, lemma_parse_items_step,
    lemma_parse_text_complete, lemma_parse_text_sound, lemma_parse_u64_complete,
    lemma_parse_u64_sound, parse_file, parse_items, parse_text, parse_u64, put_text, put_u32,
    put_u64, read_text, read_u64, text_bytes, text_fits, MAX_SIZE,
};
use crate::db::repo::Epoch;
use crate::errors::Error;
use crate::text::{
    chars_of, lemma_text_lt_total, lemma_text_lt_transitive, lt_chars, same_chars, text_lt,
};
use crate::util::DAY;

verus! {

/// The one version of the keyword file that is read and written.
pub const KEYWORDS_VERSION: u32 = 1;

/// A keyword and the time at which it expires, as values.
pub type Entry = (Seq<char>, Epoch);

/// Whether the file format can hold the entry.
pub open spec fn valid_entry(e: Entry) -> bool {
    text_fits(e.0)
}

/// The bytes of an entry: the keyword as a text, then the expiry in eight
/// bytes.
pub open spec fn entry_bytes(e: Entry) -> Seq<u8> {
    text_bytes(e.0) + le_bytes(e.1 as nat, 8)
}

/// Reads one entry from the front of `b`: the entry and the count of bytes
/// it took.
pub open spec fn parse_entry(b: Seq<u8>) -> Option<(Entry, nat)> {
    match parse_text(b) {
        None => None,
        Some((keyword, n1)) => match parse_u64(b.skip(n1 as int)) {
            None => None,
            Some((expiry, n2)) => Some(((keyword, expiry), n1 + n2)),
        },
    }
}

/// `valid_entry` as a function value.
pub open spec fn entry_valid() -> spec_fn(Entry) -> bool {
    |e: Entry| valid_entry(e)
}

/// `entry_bytes` as a function value.
pub open spec fn entry_enc() -> spec_fn(Entry) -> Seq<u8> {
    |e: Entry| entry_bytes(e)
}

/// `parse_entry` as a function value.
pub open spec fn entry_parse() -> spec_fn(Seq<u8>) -> Option<(Entry, nat)> {
    |b: Seq<u8>| parse_entry(b)
}

/// The entry layout reads back what it writes, and no entry is written in
/// no bytes.
pub proof fn lemma_entry_layout()
    ensures
        layout_of(entry_valid(), entry_enc(), entry_parse()),
        forall|e: Entry| (#[trigger] entry_enc()(e)).len() >= 1,
{
    assert forall|e: Entry, rest: Seq<u8>| entry_valid()(e) implies #[trigger] entry_parse()(
        entry_enc()(e) + rest,
    ) == Some((e, entry_enc()(e).len())) by {
        let t = text_bytes(e.0);
        let u = le_bytes(e.1 as nat, 8);
        let b = entry_bytes(e) + rest;
        lemma_le_bytes_len(e.1 as nat, 8);
        assert(b =~= t + (u + rest));
        lemma_parse_text_complete(e.0, u + rest);
        assert(b.skip(t.len() as int) =~= u + rest);
        lemma_parse_u64_complete(e.1, rest);
    }
    assert forall|b: Seq<u8>|
        ((#[trigger] entry_parse()(b)) matches Some((e, n)) ==> n <= b.len() && entry_valid()(e)
            && b.take(n as int) == entry_enc()(e)) by {
        if let Some((e, n)) = parse_entry(b) {
            let (keyword, n1) = parse_text(b)->0;
            lemma_parse_text_sound(b);
            lemma_parse_u64_sound(b.skip(n1 as int));
            assert(b.take(n as int) =~= b.take(n1 as int) + b.skip(n1 as int).take(8));
        }
    }
    assert forall|e: Entry| (#[trigger] entry_enc()(e)).len() >= 1 by {
        lemma_le_bytes_len(e.1 as nat, 8);
    }
}

/// The bytes of the keyword file for a list of entries.
pub open spec fn keywords_bytes(entries: Seq<Entry>) -> Seq<u8> {
    file_bytes(KEYWORDS_VERSION, entries, entry_enc())
}

/// Whether a list of entries can be read back from its file.
pub open spec fn fits_keywords(entries: Seq<Entry>) -> bool {
    fits_file(entries, entry_valid(), entry_enc())
}

/// Reading the file of a list of entries gives the list back.
pub proof fn lemma_keywords_round_trip(entries: Seq<Entry>)
    requires
        fits_keywords(entries),
    ensures
        parse_file(keywords_bytes(entries), KEYWORDS_VERSION, entry_parse()) == Ok::<
            Seq<Entry>,
            Error,
        >(entries),
{
    lemma_entry_layout();
    lemma_file_round_trip(KEYWORDS_VERSION, entries, entry_valid(), entry_enc(), entry_parse());
}

/// The map that a list of entries stands for when it is read in order: a
/// later entry replaces an earlier one of the same keyword.
pub open spec fn entries_map(entries: Seq<Entry>) -> Map<Seq<char>, Epoch>
    decreases entries.len(),
{
    if entries.len() == 0 {
        Map::empty()
    } else {
        entries_map(entries.drop_last()).insert(entries.last().0, entries.last().1)
    }
}

/// The entries of `m` that have not expired at `now`: those whose expiry is
/// `now` or later.
pub open spec fn live(m: Map<Seq<char>, Epoch>, now: Epoch) -> Map<Seq<char>, Epoch> {
    Map::new(|k: Seq<char>| m.dom().contains(k) && m[k] >= now, |k: Seq<char>| m[k])
}

/// The keywords stand in ascending order, so none stands twice.
pub open spec fn ascending(entries: Seq<Entry>) -> bool {
    forall|i: int, j: int| 0 <= i < j < entries.len() ==> text_lt(entries[i].0, entries[j].0)
}

/// The map of a list of entries with ascending keywords: each keyword with
/// its expiry.
pub open spec fn keyed(entries: Seq<Entry>) -> Map<Seq<char>, Epoch> {
    Map::new(
        |k: Seq<char>| exists|i: int| 0 <= i < entries.len() && entries[i].0 == k,
        |k: Seq<char>| entries[choose|i: int| 0 <= i < entries.len() && entries[i].0 == k].1,
    )
}

/// The values of a list of entries.
pub open spec fn entry_views(data: Seq<(String, Epoch)>) -> Seq<Entry> {
    data.map_values(|e: (String, Epoch)| (e.0@, e.1))
}

/// In an ascending list each keyword stands once, with its expiry.
pub proof fn lemma_keyed(entries: Seq<Entry>, i: int)
    requires
        ascending(entries),
        0 <= i < entries.len(),
    ensures
        keyed(entries).dom().contains(entries[i].0),
        keyed(entries)[entries[i].0] == entries[i].1,
{
    let k = entries[i].0;
    let c = choose|c: int| 0 <= c < entries.len() && entries[c].0 == k;
    lemma_text_lt_total(entries[c].0, entries[i].0);
    if c < i {
        assert(text_lt(entries[c].0, entries[i].0));
    } else if i < c {
        assert(text_lt(entries[i].0, entries[c].0));
    }
}

/// Read in order, a list with ascending keywords stands for the map of its
/// entries: no keyword stands twice, so no entry replaces another.
pub proof fn lemma_entries_map_keyed(entries: Seq<Entry>)
    requires
        ascending(entries),
    ensures
        entries_map(entries) == keyed(entries),
    decreases entries.len(),
{
    if entries.len() == 0 {
        assert(keyed(entries) =~= Map::<Seq<char>, Epoch>::empty());
    } else {
        let fewer = entries.drop_last();
        let last = entries.last();
        assert forall|i: int, j: int| 0 <= i < j < fewer.len() implies text_lt(
            fewer[i].0,
            fewer[j].0,
        ) by {
            assert(fewer[i] == entries[i] && fewer[j] == entries[j]);
        }
        lemma_entries_map_keyed(fewer);
        assert(keyed(entries) =~= keyed(fewer).insert(last.0, last.1)) by {
            assert forall|k: Seq<char>| #[trigger]
                keyed(entries).dom().contains(k) implies keyed(fewer).insert(
                last.0,
                last.1,
            ).dom().contains(k) && keyed(entries)[k] == keyed(fewer).insert(last.0, last.1)[k] by {
                let c = choose|c: int| 0 <= c < entries.len() && entries[c].0 == k;
                lemma_keyed(entries, c);
                if c < fewer.len() {
                    assert(fewer[c] == entries[c]);
                    lemma_keyed(fewer, c);
                    lemma_text_lt_total(entries[c].0, last.0);
                    assert(text_lt(entries[c].0, entries[entries.len() - 1].0));
                }
            }
            assert forall|k: Seq<char>| #[trigger]
                keyed(fewer).insert(last.0, last.1).dom().contains(k) implies keyed(
                entries,
            ).dom().contains(k) by {
                if k == last.0 {
                    lemma_keyed(entries, entries.len() - 1);
                } else {
                    let c = choose|c: int| 0 <= c < fewer.len() && fewer[c].0 == k;
                    assert(entries[c] == fewer[c]);
                    lemma_keyed(entries, c);
                }
            }
        }
    }
}

/// A cache that is saved and opened again is the cache that was saved,
/// without what has expired since: where `read` is a list whose file is the
/// file that `Keywords::save` wrote for the listing `saved`, it is `saved`,
/// and what `Keywords::open` keeps of it at `now` are the entries of `saved`
/// that have not expired, all of them where none has.
pub proof fn lemma_saved_then_opened(saved: Seq<Entry>, read: Seq<Entry>, now: Epoch)
    requires
        ascending(saved),
        fits_keywords(saved),
        fits_keywords(read),
        keywords_bytes(read) == keywords_bytes(saved),
    ensures
        read == saved,
        live(entries_map(read), now) == live(keyed(saved), now),
        (forall|i: int| 0 <= i < saved.len() ==> (#[trigger] saved[i]).1 >= now) ==> live(
            entries_map(read),
            now,
        ) == keyed(saved),
{
    lemma_keywords_round_trip(saved);
    lemma_keywords_round_trip(read);
    lemma_entries_map_keyed(saved);
    if forall|i: int| 0 <= i < saved.len() ==> (#[trigger] saved[i]).1 >= now {
        assert(live(keyed(saved), now) =~= keyed(saved)) by {
            assert forall|k: Seq<char>| #[trigger] keyed(saved).dom().contains(k) implies live(
                keyed(saved),
                now,
            ).dom().contains(k) by {
                let c = choose|c: int| 0 <= c < saved.len() && saved[c].0 == k;
                lemma_keyed(saved, c);
                assert(saved[c].1 >= now);
            }
        }
    }
}

/// Sets `key` to `expiry` in an ascending list, which stays ascending.
fn put(data: &mut Vec<(String, Epoch)>, key: String, expiry: Epoch)
    requires
        ascending(entry_views(old(data)@)),
    ensures
        ascending(entry_views(final(data)@)),
        keyed(entry_views(final(data)@)) == keyed(entry_views(old(data)@)).insert(key@, expiry),
{
    let ghost before = entry_views(data@);
    let key_chars = chars_of(key.as_str());
    let mut i: usize = 0;
    while i < data.len() && lt_chars(&chars_of(data[i].0.as_str()), &key_chars)
        invariant
            i <= data.len(),
            key_chars@ == key@,
            data@ == old(data)@,
            before == entry_views(data@),
            forall|k: int| 0 <= k < i ==> text_lt(#[trigger] before[k].0, key@),
        decreases data.len() - i,
    {
        assert(before[i as int].0 == data[i as int].0@);
        i += 1;
    }
    let replace = i < data.len() && same_chars(&chars_of(data[i].0.as_str()), &key_chars);
    let ghost held = data@;
    if replace {
        let _ = data.remove(i);
    }
    data.insert(i, (key, expiry));
    proof {
        let after = entry_views(data@);
        let new = (key@, expiry);
        if replace {
            assert(after =~= before.update(i as int, new)) by {
                assert(data@ =~= held.remove(i as int).insert(i as int, (key, expiry)));
            }
        } else {
            assert(after =~= before.insert(i as int, new)) by {
                assert(data@ =~= held.insert(i as int, (key, expiry)));
            }
            if i < before.len() {
                lemma_text_lt_total(before[i as int].0, key@);
            }
        }
        assert forall|a: int, b: int| 0 <= a < b < after.len() implies text_lt(
            after[a].0,
            after[b].0,
        ) by {
            let shift = if replace { 0int } else { 1int };
            if b == i {
                assert(after[a] == before[a]);
            } else if a == i {
                assert(after[b] == before[b - shift]);
                if b - shift > i {
                    assert(text_lt(before[i as int].0, before[b - shift].0));
                    if !replace {
                        lemma_text_lt_transitive(key@, before[i as int].0, before[b - shift].0);
                    }
                }
            } else {
                let x = if a < i { a } else { a - shift };
                let y = if b < i { b } else { b - shift };
                assert(after[a] == before[x] && after[b] == before[y]);
            }
        }
        assert(keyed(after) =~= keyed(before).insert(key@, expiry)) by {
            lemma_keyed(after, i as int);
            assert forall|k: Seq<char>| keyed(after).dom().contains(k) implies keyed(
                before,
            ).insert(key@, expiry).dom().contains(k) && keyed(after)[k] == keyed(before).insert(
                key@,
                expiry,
            )[k] by {
                let c = choose|c: int| 0 <= c < after.len() && after[c].0 == k;
                lemma_keyed(after, c);
                if k != key@ {
                    let shift = if replace { 0int } else { 1int };
                    let x = if c < i { c } else { c - shift };
                    assert(after[c] == before[x]);
                    lemma_keyed(before, x);
                }
            }
            assert forall|k: Seq<char>| keyed(before).insert(key@, expiry).dom().contains(
                k,
            ) implies keyed(after).dom().contains(k) by {
                if k != key@ {
                    let c = choose|c: int| 0 <= c < before.len() && before[c].0 == k;
                    let shift = if replace { 0int } else { 1int };
                    let x = if c < i { c } else { c + shift };
                    assert(after[x] == before[c]);
                    lemma_keyed(after, x);
                }
            }
        }
    }
}

/// A copy of a list of entries.
fn copy_of(data: &Vec<(String, Epoch)>) -> (r: Vec<(String, Epoch)>)
    ensures
        entry_views(r@) == entry_views(data@),
{
    let mut r: Vec<(String, Epoch)> = Vec::new();
    let mut i: usize = 0;
    while i < data.len()
        invariant
            i <= data.len(),
            entry_views(r@) == entry_views(data@).take(i as int),
        decreases data.len() - i,
    {
        let ghost copied = r@;
        let key = data[i].0.clone();
        r.push((key, data[i].1));
        proof {
            let all = entry_views(data@);
            assert(entry_views(r@) =~= entry_views(copied).push((key@, data[i as int].1)));
            assert(all.take(i + 1) =~= all.take(i as int).push(all[i as int]));
        }
        i += 1;
    }
    proof {
        assert(entry_views(data@).take(data.len() as int) =~= entry_views(data@));
    }
    r
}

/// The aliases that were used of late, each with the time at which it
/// expires.
pub struct Keywords {
    path: String,
    data: Vec<(String, Epoch)>,
}

impl Keywords {
    #[verifier::type_invariant]
    spec fn sorted(self) -> bool {
        ascending(entry_views(self.data@))
    }

    /// The keywords with their expiry.
    pub closed spec fn entries(&self) -> Map<Seq<char>, Epoch> {
        keyed(entry_views(self.data@))
    }

    /// The entries in the order in which they are written.
    pub closed spec fn listing(&self) -> Seq<Entry> {
        entry_views(self.data@)
    }

    /// The file that the cache is bound to.
    pub closed spec fn file(&self) -> Seq<char> {
        self.path@
    }

    /// Reads `count` entries from position 12 on: the entries and the
    /// position after them.
    fn read_entries(bytes: &[u8], count: u64) -> (r: Option<(Vec<(String, Epoch)>, usize)>)
        requires
            12 <= bytes.len(),
        ensures
            match r {
                Some((data, end)) => 12 <= end <= bytes.len() && parse_items(
                    bytes@.skip(12),
                    count as nat,
                    entry_parse(),
                ) == Some((entry_views(data@), (end - 12) as nat)),
                None => parse_items(bytes@.skip(12), count as nat, entry_parse()) is None,
            },
    {
        let mut data: Vec<(String, Epoch)> = Vec::new();
        let mut pos: usize = 12;
        let mut i: u64 = 0;
        proof {
            assert(entry_views(data@) =~= Seq::<Entry>::empty());
            let whole = parse_items(bytes@.skip(12), count as nat, entry_parse());
            match whole {
                None => {},
                Some((rest, m)) => {
                    assert(entry_views(data@) + rest =~= rest);
                },
            }
        }
        while i < count
            invariant
                12 <= pos <= bytes.len(),
                i <= count,
                parse_items(bytes@.skip(12), count as nat, entry_parse()) == joined(
                    entry_views(data@),
                    (pos - 12) as nat,
                    parse_items(bytes@.skip(pos as int), (count - i) as nat, entry_parse()),
                ),
            decreases count - i,
        {
            let ghost b = bytes@.skip(pos as int);
            let keyword = read_text(bytes, pos);
            let (key, end_key) = match keyword {
                Some(x) => x,
                None => {
                    proof {
                        lemma_parse_items_step(
                            bytes@,
                            12,
                            pos as int,
                            (count - i) as nat,
                            entry_views(data@),
                            entry_parse(),
                        );
                    }
                    return None;
                },
            };
            proof {
                assert(b.skip(end_key - pos) =~= bytes@.skip(end_key as int));
            }
            let (expiry, end_expiry) = match read_u64(bytes, end_key) {
                Some(x) => x,
                None => {
                    proof {
                        lemma_parse_items_step(
                            bytes@,
                            12,
                            pos as int,
                            (count - i) as nat,
                            entry_views(data@),
                            entry_parse(),
                        );
                    }
                    return None;
                },
            };
            proof {
                lemma_parse_items_step(
                    bytes@,
                    12,
                    pos as int,
                    (count - i) as nat,
                    entry_views(data@),
                    entry_parse(),
                );
                assert(entry_views(data@.push((key, expiry))) =~= entry_views(data@).push(
                    (key@, expiry),
                ));
            }
            data.push((key, expiry));
            pos = end_expiry;
            i += 1;
        }
        proof {
            lemma_parse_items_none(
                bytes@.skip(pos as int),
                entry_views(data@),
                (pos - 12) as nat,
                entry_parse(),
            );
        }
        Some((data, pos))
    }

    /// The entries that the bytes of a keyword file hold, in file order.
    pub fn deserialize(bytes: &[u8]) -> (r: Result<Vec<(String, Epoch)>, Error>)
        ensures
            bytes.len() < 4 ==> r == Err::<Vec<(String, Epoch)>, Error>(Error::CorruptData),
            bytes.len() >= 4 && header_version(bytes@) != KEYWORDS_VERSION ==> r == Err::<
                Vec<(String, Epoch)>,
                Error,
            >(Error::UnsupportedVersion(header_version(bytes@))),
            r is Ok <==> exists|entries: Seq<Entry>|
                fits_keywords(entries) && bytes@ == keywords_bytes(entries),
            r matches Ok(data) ==> fits_keywords(entry_views(data@)) && bytes@ == keywords_bytes(
                entry_views(data@),
            ),
            r matches Err(e) ==> e == file_failure(bytes@, KEYWORDS_VERSION),
    {
        proof {
            lemma_entry_layout();
            lemma_file_sound(
                bytes@,
                KEYWORDS_VERSION,
                entry_valid(),
                entry_enc(),
                entry_parse(),
            );
            assert forall|l: Seq<Entry>| fits_keywords(l) && bytes@ == keywords_bytes(
                l,
            ) implies parse_file(bytes@, KEYWORDS_VERSION, entry_parse()) is Ok by {
                lemma_keywords_round_trip(l);
            }
        }
        if bytes.len() < 4 {
            return Err(Error::CorruptData);
        }
        let version = get_u32(bytes, 0);
        proof {
            assert(bytes@.take(4) =~= bytes@.subrange(0, 4));
        }
        if version != KEYWORDS_VERSION {
            return Err(Error::UnsupportedVersion(version));
        }
        if bytes.len() - 4 > MAX_SIZE || bytes.len() < 12 {
            return Err(Error::CorruptData);
        }
        let count = get_u64(bytes, 4);
        match Keywords::read_entries(bytes, count) {
            None => {
                assert(parse_file(bytes@, KEYWORDS_VERSION, entry_parse()) is Err);
                Err(Error::CorruptData)
            },
            Some((data, end)) => {
                if end != bytes.len() {
                    assert(parse_file(bytes@, KEYWORDS_VERSION, entry_parse()) is Err);
                    return Err(Error::CorruptData);
                }
                proof {
                    assert(parse_file(bytes@, KEYWORDS_VERSION, entry_parse()) == Ok::<
                        Seq<Entry>,
                        Error,
                    >(entry_views(data@)));
                    assert(fits_keywords(entry_views(data@)) && bytes@ == keywords_bytes(
                        entry_views(data@),
                    ));
                }
                Ok(data)
            },
        }
    }

    /// The cache bound to `path`, with what its file holds at `now`: the
    /// entries read from `contents` that have not expired, a later entry
    /// replacing an earlier one of the same keyword; or no entry where the
    /// file does not exist yet.
    pub fn open(path: String, contents: Option<&[u8]>, now: Epoch) -> (r: Result<Keywords, Error>)
        ensures
            match contents {
                None => (r matches Ok(cache) && cache.entries() == Map::<
                    Seq<char>,
                    Epoch,
                >::empty()),
                Some(bytes) => {
                    &&& r is Ok <==> exists|entries: Seq<Entry>|
                        fits_keywords(entries) && bytes@ == keywords_bytes(entries)
                    &&& r matches Ok(cache) ==> exists|entries: Seq<Entry>|
                        fits_keywords(entries) && bytes@ == keywords_bytes(entries)
                            && cache.entries() == live(entries_map(entries), now)
                    &&& bytes.len() < 4 ==> r == Err::<Keywords, Error>(Error::CorruptData)
                    &&& bytes.len() >= 4 && header_version(bytes@) != KEYWORDS_VERSION ==> r
                        == Err::<Keywords, Error>(
                        Error::UnsupportedVersion(header_version(bytes@)),
                    )
                    &&& r matches Err(e) ==> e == file_failure(bytes@, KEYWORDS_VERSION)
                },
            },
            r matches Ok(cache) ==> cache.file() == path@,
    {
        let raw: Vec<(String, Epoch)> = match contents {
            None => {
                let data: Vec<(String, Epoch)> = Vec::new();
                proof {
                    assert(entry_views(data@) =~= Seq::<Entry>::empty());
                    assert(keyed(entry_views(data@)) =~= Map::<Seq<char>, Epoch>::empty());
                }
                return Ok(Keywords { path, data });
            },
            Some(bytes) => match Keywords::deserialize(bytes) {
                Ok(raw) => raw,
                Err(e) => {
                    return Err(e);
                },
            },
        };
        let ghost file_order = entry_views(raw@);
        let mut merged: Vec<(String, Epoch)> = Vec::new();
        let mut i: usize = 0;
        proof {
            assert(entry_views(merged@) =~= Seq::<Entry>::empty());
            assert(file_order.take(0) =~= Seq::<Entry>::empty());
            assert(keyed(entry_views(merged@)) =~= entries_map(file_order.take(0)));
        }
        while i < raw.len()
            invariant
                i <= raw.len(),
                file_order == entry_views(raw@),
                ascending(entry_views(merged@)),
                keyed(entry_views(merged@)) == entries_map(file_order.take(i as int)),
            decreases raw.len() - i,
        {
            proof {
                assert(file_order.take(i + 1).drop_last() =~= file_order.take(i as int));
                assert(file_order.take(i + 1).last() == file_order[i as int]);
            }
            put(&mut merged, raw[i].0.clone(), raw[i].1);
            i += 1;
        }
        proof {
            assert(file_order.take(raw.len() as int) =~= file_order);
        }
        let mut data: Vec<(String, Epoch)> = Vec::new();
        let ghost mut origin: Seq<int> = Seq::empty();
        let ghost all = entry_views(merged@);
        let mut k: usize = 0;
        proof {
            assert(entry_views(data@) =~= Seq::<Entry>::empty());
        }
        while k < merged.len()
            invariant
                k <= merged.len(),
                all == entry_views(merged@),
                ascending(all),
                origin.len() == data.len(),
                forall|a: int|
                    0 <= a < data.len() ==> 0 <= #[trigger] origin[a] < k && entry_views(data@)[a]
                        == all[origin[a]] && all[origin[a]].1 >= now,
                forall|a: int, b: int| 0 <= a < b < data.len() ==> origin[a] < origin[b],
                forall|c: int|
                    0 <= c < k && (#[trigger] all[c]).1 >= now ==> exists|a: int|
                        0 <= a < data.len() && origin[a] == c,
            decreases merged.len() - k,
        {
            if merged[k].1 >= now {
                proof {
                    let kept = (merged[k as int].0@, merged[k as int].1);
                    assert(entry_views(data@.push((merged[k as int].0, merged[k as int].1)))
                        =~= entry_views(data@).push(kept));
                    let grown = origin.push(k as int);
                    assert forall|c: int|
                        0 <= c < k + 1 && (#[trigger] all[c]).1 >= now implies exists|a: int|
                        0 <= a < data.len() + 1 && grown[a] == c by {
                        if c < k {
                            let a = choose|a: int| 0 <= a < data.len() && origin[a] == c;
                            assert(grown[a] == c);
                        } else {
                            assert(grown[data.len() as int] == c);
                        }
                    }
                    origin = grown;
                }
                data.push((merged[k].0.clone(), merged[k].1));
            }
            k += 1;
        }
        proof {
            let kept = entry_views(data@);
            assert forall|a: int, b: int| 0 <= a < b < kept.len() implies text_lt(
                kept[a].0,
                kept[b].0,
            ) by {
                assert(kept[a] == all[origin[a]] && kept[b] == all[origin[b]]);
            }
            assert(keyed(kept) =~= live(keyed(all), now)) by {
                assert forall|q: Seq<char>| #[trigger]
                    keyed(kept).dom().contains(q) implies live(keyed(all), now).dom().contains(q)
                    && keyed(kept)[q] == live(keyed(all), now)[q] by {
                    let a = choose|a: int| 0 <= a < kept.len() && kept[a].0 == q;
                    lemma_keyed(kept, a);
                    assert(kept[a] == all[origin[a]]);
                    lemma_keyed(all, origin[a]);
                }
                assert forall|q: Seq<char>| #[trigger]
                    live(keyed(all), now).dom().contains(q) implies keyed(kept).dom().contains(
                    q,
                ) by {
                    assert(keyed(all).dom().contains(q) && keyed(all)[q] >= now);
                    let c = choose|c: int| 0 <= c < all.len() && all[c].0 == q;
                    lemma_keyed(all, c);
                    assert(all[c].1 >= now);
                    assert(c < k);
                    let a = choose|a: int| 0 <= a < data.len() && origin[a] == c;
                    assert(0 <= origin[a] < k);
                    assert(kept[a] == all[c]);
                    lemma_keyed(kept, a);
                }
                assert(keyed(kept).dom() =~= live(keyed(all), now).dom());
            }
        }
        Ok(Keywords { path, data })
    }

    /// The bytes of the keyword file for the entries of the cache, written by
    /// ascending keyword.
    pub fn save(&self) -> (bytes: Vec<u8>)
        ensures
            bytes@ == keywords_bytes(self.listing()),
            forall|i: int| 0 <= i < self.listing().len() ==> valid_entry(self.listing()[i]),
            ascending(self.listing()),
            self.entries() == keyed(self.listing()),
    {
        proof {
            use_type_invariant(self);
        }
        let mut out: Vec<u8> = Vec::new();
        put_u32(&mut out, KEYWORDS_VERSION);
        put_u64(&mut out, self.data.len() as u64);
        let ghost head = out@;
        let ghost l = entry_views(self.data@);
        let mut i: usize = 0;
        proof {
            assert(l.take(0) =~= Seq::<Entry>::empty());
            assert(out@ =~= head + items_bytes(l.take(0), entry_enc()));
        }
        while i < self.data.len()
            invariant
                i <= self.data.len(),
                l == entry_views(self.data@),
                out@ == head + items_bytes(l.take(i as int), entry_enc()),
                forall|j: int| 0 <= j < i ==> valid_entry(#[trigger] l[j]),
            decreases self.data.len() - i,
        {
            let ghost before = out@;
            put_text(&mut out, self.data[i].0.as_str());
            put_u64(&mut out, self.data[i].1);
            proof {
                lemma_items_bytes_push(l.take(i as int), l[i as int], entry_enc());
                assert(l.take(i + 1) =~= l.take(i as int).push(l[i as int]));
                assert(out@ =~= before + entry_bytes(l[i as int]));
                assert(out@ =~= head + items_bytes(l.take(i + 1), entry_enc()));
            }
            i += 1;
        }
        proof {
            assert(l.take(self.data.len() as int) =~= l);
            assert(out@ =~= keywords_bytes(l));
        }
        out
    }

    /// The file that the cache is bound to.
    pub fn path(&self) -> (r: &str)
        ensures
            r@ == self.file(),
    {
        self.path.as_str()
    }

    /// The keywords, in ascending order: each keyword of the cache once.
    pub fn list(&self) -> (r: Vec<String>)
        ensures
            r.len() == self.listing().len(),
            forall|i: int| 0 <= i < r.len() ==> (#[trigger] r[i])@ == self.listing()[i].0,
            forall|i: int, j: int| 0 <= i < j < r.len() ==> text_lt(r[i]@, r[j]@),
            forall|k: Seq<char>|
                self.entries().dom().contains(k) <==> exists|i: int|
                    0 <= i < r.len() && (#[trigger] r[i])@ == k,
    {
        proof {
            use_type_invariant(self);
        }
        let ghost l = entry_views(self.data@);
        let mut r: Vec<String> = Vec::new();
        let mut i: usize = 0;
        while i < self.data.len()
            invariant
                i <= self.data.len(),
                l == entry_views(self.data@),
                r.len() == i,
                forall|j: int| 0 <= j < i ==> (#[trigger] r[j])@ == l[j].0,
            decreases self.data.len() - i,
        {
            r.push(self.data[i].0.clone());
            i += 1;
        }
        proof {
            assert forall|k: Seq<char>| self.entries().dom().contains(k) implies exists|i: int|
                0 <= i < r.len() && (#[trigger] r[i])@ == k by {
                let c = choose|c: int| 0 <= c < l.len() && l[c].0 == k;
                assert(r[c]@ == k);
            }
            assert forall|k: Seq<char>|
                (exists|i: int| 0 <= i < r.len() && (#[trigger] r[i])@ == k)
                implies self.entries().dom().contains(k) by {
                let c = choose|c: int| 0 <= c < r.len() && (#[trigger] r[c])@ == k;
                assert(l[c].0 == k);
            }
        }
        r
    }

    /// The time at which `keyword` expires, where the cache holds it.
    pub fn get(&self, keyword: &str) -> (r: Option<Epoch>)
        ensures
            r == if self.entries().dom().contains(keyword@) {
                Some(self.entries()[keyword@])
            } else {
                None
            },
    {
        proof {
            use_type_invariant(self);
        }
        let wanted = chars_of(keyword);
        let ghost l = entry_views(self.data@);
        let mut i: usize = 0;
        while i < self.data.len()
            invariant
                i <= self.data.len(),
                wanted@ == keyword@,
                l == entry_views(self.data@),
                ascending(l),
                forall|j: int| 0 <= j < i ==> l[j].0 != keyword@,
            decreases self.data.len() - i,
        {
            if same_chars(&chars_of(self.data[i].0.as_str()), &wanted) {
                proof {
                    assert(l[i as int].0 == keyword@);
                    lemma_keyed(l, i as int);
                }
                return Some(self.data[i].1);
            }
            i += 1;
        }
        proof {
            if keyed(l).dom().contains(keyword@) {
                let c = choose|c: int| 0 <= c < l.len() && l[c].0 == keyword@;
                assert(l[c].0 != keyword@);
            }
        }
        None
    }

    /// Sets `keyword` to expire one day after `now`.
    pub fn add(&mut self, keyword: &str, now: Epoch)
        requires
            now + DAY <= u64::MAX,
        ensures
            final(self).entries() == old(self).entries().insert(keyword@, (now + DAY) as Epoch),
            final(self).file() == old(self).file(),
    {
        proof {
            use_type_invariant(&*self);
        }
        let mut data = copy_of(&self.data);
        put(&mut data, keyword.to_owned(), now + DAY);
        self.data = data;
    }
}

} // verus!
