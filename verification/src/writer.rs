//! The writer: a bundle laid out as the bytes of a file.
//!
//! Before anything is written, every string of the four pools is given its
//! place in the string data. The places are kept in an insertion-ordered
//! map, `indexmap`'s `IndexMap`; what the map holds is named `map_entries`,
//! and the calls into it are stated over that name.

use vstd::prelude::*;
use vstd::slice::slice_subrange;
use ahash::RandomState;
use indexmap::IndexMap;
use crate::bundle::{BundleView, definition_views, ScriptBundle};
use crate::checksum::checksum;
use crate::codec::{
    holds_at, laid, le32, le8, lemma_le_len, lemma_overlay_concat, lemma_overlay_front,
    lemma_overlay_holds, lemma_overlay_whole, overlay, put_bytes, put_u32, put_u8, zeroed,
};
use crate::definition::{
    def_header_wire, Definition, DefinitionHeader, DefinitionView, HEADER_SIZE,
    lemma_def_header_len, put_def_header,
};
use crate::error::Error;
use crate::header::{
    Header, HEADER_BYTES, header_wire, lemma_header_len, MAGIC, put_header, SEGMENTS,
    SUPPORTED_VERSION, TableHeader, Timestamp, UNSTAMPED,
};
use crate::index::PoolIndex;
use crate::layout::{
    all_strings, blob_offset_at, blob_strings, blob_wire, body_wire, cstr_rule, cstr_wire,
    file_bytes, file_header, header_rule, headers_wire, layout, lemma_body_parts,
    lemma_header_list_len, lemma_headers_len, lemma_layout, lemma_pool_table_len,
    lemma_pools_in_blob, offset_rule, payload_pos, payload_rule, payloads_wire, placed_headers,
    pool_table_wire, unstamped_header, writable,
};
use crate::list::{lemma_list_wire_prefix, lemma_list_wire_push, list_wire, unique};
use crate::pool::StringPool;

verus! {

#[verifier::external_type_specification]
#[verifier::external_body]
#[verifier::reject_recursive_types(K)]
#[verifier::reject_recursive_types(V)]
#[verifier::reject_recursive_types(S)]
pub struct ExIndexMap<K, V, S>(IndexMap<K, V, S>);

/// The keys of a map with their values, in the order in which the keys were
/// inserted.
pub uninterp spec fn map_entries(map: IndexMap<String, u32, RandomState>) -> Seq<(Seq<char>, u32)>;

/// `IndexMap::default`: a map that holds nothing.
#[verifier::external_body]
pub(crate) fn map_new() -> (map: IndexMap<String, u32, RandomState>)
    ensures
        map_entries(map) == Seq::<(Seq<char>, u32)>::empty(),
{
    IndexMap::default()
}

/// `IndexMap::get`: the value of a key that the map holds, and nothing for a
/// key that it does not hold.
#[verifier::external_body]
pub(crate) fn map_get(map: &IndexMap<String, u32, RandomState>, key: &str) -> (r: Option<u32>)
    ensures
        match r {
            Some(v) => exists|i: int|
                0 <= i < map_entries(*map).len() && #[trigger] map_entries(*map)[i] == (key@, v),
            None => forall|i: int|
                0 <= i < map_entries(*map).len() ==> (#[trigger] map_entries(*map)[i]).0 != key@,
        },
{
    map.get(key).copied()
}

/// `IndexMap::insert` of a key that the map does not hold: the key and its
/// value go to the end.
#[verifier::external_body]
pub(crate) fn map_insert(map: &mut IndexMap<String, u32, RandomState>, key: String, value: u32)
    requires
        forall|i: int|
            0 <= i < map_entries(*old(map)).len() ==> (#[trigger] map_entries(*old(map))[i]).0
                != key@,
    ensures
        map_entries(*final(map)) == map_entries(*old(map)).push((key@, value)),
{
    map.insert(key, value);
}

/// `IndexMap::len`: the number of keys that the map holds.
#[verifier::external_body]
pub(crate) fn map_len(map: &IndexMap<String, u32, RandomState>) -> (n: usize)
    ensures
        n == map_entries(*map).len(),
{
    map.len()
}

/// `IndexMap::get_index`: the key at a position with its value, and nothing
/// for a position behind the last.
#[verifier::external_body]
pub(crate) fn map_get_index(map: &IndexMap<String, u32, RandomState>, index: usize) -> (r: Option<
    (&String, u32),
>)
    ensures
        match r {
            Some(entry) => index < map_entries(*map).len() && (entry.0@, entry.1) == map_entries(
                *map,
            )[index as int],
            None => index >= map_entries(*map).len(),
        },
{
    map.get_index(index).map(|entry| (entry.0, *entry.1))
}

/// The strings of the string data with the offsets at which they start.
pub open spec fn blob_entries(strings: Seq<Seq<char>>) -> Seq<(Seq<char>, u32)> {
    Seq::new(strings.len(), |i: int| (strings[i], blob_offset_at(strings, i) as u32))
}

/// `unique` of a sequence with one more value.
pub proof fn lemma_unique_push<T>(s: Seq<T>, x: T)
    ensures
        unique(s.push(x)) == if unique(s).contains(x) {
            unique(s)
        } else {
            unique(s).push(x)
        },
{
    assert(s.push(x).drop_last() =~= s);
}

/// The string data with one more string: the string starts where the data
/// ended, and the data grows by the string and its terminator.
pub proof fn lemma_blob_push(strings: Seq<Seq<char>>, s: Seq<char>)
    ensures
        blob_entries(strings.push(s)) == blob_entries(strings).push(
            (s, blob_wire(strings).len() as u32),
        ),
        blob_wire(strings.push(s)) == blob_wire(strings) + cstr_wire(s),
{
    let more = strings.push(s);
    assert(more.take(strings.len() as int) =~= strings);
    assert forall|i: int| 0 <= i < strings.len() implies blob_offset_at(more, i) == blob_offset_at(
        strings,
        i,
    ) by {
        assert(more.take(i) =~= strings.take(i));
    }
}

/// The string data does not shrink when more strings are seen.
pub proof fn lemma_blob_grows(seen: Seq<Seq<char>>, more: Seq<Seq<char>>)
    ensures
        blob_wire(unique(seen)).len() <= blob_wire(unique(seen + more)).len(),
    decreases more.len(),
{
    if more.len() == 0 {
    } else {
        let init = more.drop_last();
        lemma_blob_grows(seen, init);
        assert((seen + init).push(more.last()) =~= seen + more);
        lemma_unique_push(seen + init, more.last());
        lemma_blob_push(unique(seen + init), more.last());
    }
}

/// The places of the strings in the string data.
#[derive(Debug)]
pub struct StringData {
    dedup: IndexMap<String, u32, RandomState>,
    length: u32,
    fits: bool,
}

impl StringData {
    /// Whether the places are those of the strings `seen`: the map holds
    /// each of them once with its offset, in the order of first occurrence,
    /// and the length is that of the string data. Where the string data is
    /// longer than 32 bits can say, only that is recorded.
    pub closed spec fn tracks(self, seen: Seq<Seq<char>>) -> bool {
        if self.fits {
            &&& map_entries(self.dedup) == blob_entries(unique(seen))
            &&& self.length == blob_wire(unique(seen)).len()
        } else {
            blob_wire(unique(seen)).len() > u32::MAX
        }
    }

    /// Places for no strings.
    fn new() -> (data: Self)
        ensures
            data.tracks(Seq::empty()),
    {
        proof {
            assert(blob_entries(unique(Seq::<Seq<char>>::empty())) =~= Seq::<
                (Seq<char>, u32),
            >::empty());
        }
        StringData { dedup: map_new(), length: 0, fits: true }
    }

    /// Gives the strings of `pool` their places behind those seen so far.
    fn extend<A>(&mut self, pool: &StringPool<A>, Ghost(seen): Ghost<Seq<Seq<char>>>)
        requires
            old(self).tracks(seen),
        ensures
            final(self).tracks(seen + pool@),
    {
        let n: usize = pool.len();
        let mut i: usize = 0;
        while i < n
            invariant
                i <= n,
                n == pool@.len(),
                n <= 0x1_0000_0000,
                self.tracks(seen + pool@.take(i as int)),
            decreases n - i,
        {
            let ghost done = seen + pool@.take(i as int);
            let text: &str = match pool.get(PoolIndex::new(i as u32)) {
                Some(text) => text,
                None => "",
            };
            proof {
                assert(done.push(text@) =~= seen + pool@.take(i + 1));
                lemma_unique_push(done, text@);
                lemma_blob_push(unique(done), text@);
                lemma_le_len();
                lemma_blob_grows(done, seq![text@]);
            }
            if self.fits {
                match map_get(&self.dedup, text) {
                    Some(_) => {},
                    None => {
                        proof {
                            if unique(done).contains(text@) {
                                let k = choose|k: int|
                                    0 <= k < unique(done).len() && unique(done)[k] == text@;
                                assert(map_entries(self.dedup)[k].0 == text@);
                            }
                        }
                        let size: usize = text.as_bytes().len();
                        if size >= 0xFFFF_FFFF || self.length as u64 + size as u64 + 1 > 0xFFFF_FFFF {
                            self.fits = false;
                        } else {
                            map_insert(&mut self.dedup, text.to_owned(), self.length);
                            self.length = self.length + size as u32 + 1;
                        }
                    },
                }
            }
            i += 1;
        }
        proof {
            assert(pool@.take(n as int) =~= pool@);
        }
    }

    /// The places of all strings of `bundle`.
    fn build(bundle: &ScriptBundle) -> (data: Self)
        ensures
            data.tracks(all_strings(bundle@)),
    {
        let mut data = StringData::new();
        let ghost empty = Seq::<Seq<char>>::empty();
        data.extend(bundle.cnames(), Ghost(empty));
        data.extend(bundle.tdb_ids(), Ghost(empty + bundle@.cnames));
        data.extend(bundle.resources(), Ghost(empty + bundle@.cnames + bundle@.tdb_ids));
        data.extend(
            bundle.strings(),
            Ghost(empty + bundle@.cnames + bundle@.tdb_ids + bundle@.resources),
        );
        proof {
            assert(empty + bundle@.cnames + bundle@.tdb_ids + bundle@.resources + bundle@.strings
                =~= all_strings(bundle@));
        }
        data
    }
}

/// The error that a bundle which cannot be written is answered with.
pub open spec fn unwritable_error() -> Error {
    Error::BadInput { err: "bundle does not fit the format" }
}

/// Lays the string data over the buffer at `pos`.
fn put_blob(bytes: &mut [u8], pos: usize, data: &StringData, Ghost(strings): Ghost<Seq<Seq<char>>>) -> (r:
    Result<usize, Error>)
    requires
        data.fits,
        map_entries(data.dedup) == blob_entries(strings),
        pos + blob_wire(strings).len() <= old(bytes)@.len(),
    ensures
        laid(old(bytes)@, pos as int, blob_wire(strings), r, final(bytes)@),
{
    let n: usize = map_len(&data.dedup);
    let mut at: usize = pos;
    let mut i: usize = 0;
    proof {
        assert(overlay(bytes@, pos as int, blob_wire(strings.take(0))) =~= bytes@);
    }
    while i < n
        invariant
            i <= n,
            n == strings.len(),
            map_entries(data.dedup) == blob_entries(strings),
            at == pos + blob_wire(strings.take(i as int)).len(),
            pos + blob_wire(strings).len() <= bytes@.len(),
            bytes@.len() == old(bytes)@.len(),
            bytes@ == overlay(old(bytes)@, pos as int, blob_wire(strings.take(i as int))),
        decreases n - i,
    {
        let ghost done = blob_wire(strings.take(i as int));
        let ghost text = vstd::utf8::encode_utf8(strings[i as int]);
        proof {
            lemma_le_len();
            lemma_list_wire_push(cstr_rule(), strings, i as int);
            lemma_list_wire_prefix(cstr_rule(), strings, i + 1);
        }
        let key: &String = match map_get_index(&data.dedup, i) {
            Some(entry) => entry.0,
            None => {
                return Err(Error::Incomplete);
            },
        };
        let mid = put_bytes(bytes, at, key.as_str().as_bytes())?;
        proof {
            lemma_overlay_concat(old(bytes)@, pos as int, done, text);
        }
        at = put_u8(bytes, mid, 0)?;
        proof {
            lemma_overlay_concat(old(bytes)@, pos as int, done + text, le8(0));
        }
        i += 1;
    }
    proof {
        assert(strings.take(n as int) =~= strings);
    }
    Ok(at)
}

/// Lays the table of a pool over the buffer at `pos`.
fn put_pool_table<A>(
    bytes: &mut [u8],
    pos: usize,
    pool: &StringPool<A>,
    data: &StringData,
    Ghost(strings): Ghost<Seq<Seq<char>>>,
) -> (r: Result<usize, Error>)
    requires
        data.fits,
        map_entries(data.dedup) == blob_entries(strings),
        strings.no_duplicates(),
        forall|i: int| 0 <= i < pool@.len() ==> strings.contains(#[trigger] pool@[i]),
        pos + 4 * pool@.len() <= old(bytes)@.len(),
    ensures
        laid(old(bytes)@, pos as int, pool_table_wire(strings, pool@), r, final(bytes)@),
{
    let n: usize = pool.len();
    let mut at: usize = pos;
    let mut i: usize = 0;
    proof {
        assert(overlay(bytes@, pos as int, pool_table_wire(strings, pool@.take(0))) =~= bytes@);
    }
    while i < n
        invariant
            i <= n,
            n == pool@.len(),
            n <= 0x1_0000_0000,
            map_entries(data.dedup) == blob_entries(strings),
            strings.no_duplicates(),
            forall|k: int| 0 <= k < pool@.len() ==> strings.contains(#[trigger] pool@[k]),
            at == pos + 4 * i,
            pos + 4 * n <= bytes@.len(),
            bytes@.len() == old(bytes)@.len(),
            bytes@ == overlay(
                old(bytes)@,
                pos as int,
                pool_table_wire(strings, pool@.take(i as int)),
            ),
        decreases n - i,
    {
        proof {
            lemma_le_len();
            lemma_pool_table_len(strings, pool@.take(i as int));
            lemma_list_wire_push(offset_rule(strings), pool@, i as int);
        }
        let text: &str = match pool.get(PoolIndex::new(i as u32)) {
            Some(text) => text,
            None => {
                return Err(Error::Incomplete);
            },
        };
        let offset: u32 = match map_get(&data.dedup, text) {
            Some(offset) => offset,
            None => {
                proof {
                    let k = choose|k: int| 0 <= k < strings.len() && strings[k] == text@;
                    assert(map_entries(data.dedup)[k].0 == text@);
                }
                return Err(Error::Incomplete);
            },
        };
        proof {
            let k = choose|k: int|
                0 <= k < map_entries(data.dedup).len() && #[trigger] map_entries(data.dedup)[k] == (
                    text@,
                    offset,
                );
            lemma_overlay_concat(
                old(bytes)@,
                pos as int,
                pool_table_wire(strings, pool@.take(i as int)),
                le32(offset),
            );
        }
        at = put_u32(bytes, at, offset)?;
        i += 1;
    }
    proof {
        assert(pool@.take(n as int) =~= pool@);
        lemma_pool_table_len(strings, pool@);
    }
    Ok(at)
}

/// Lays the table of definition headers over the buffer at `pos`, for
/// payloads that start at `start`.
fn put_headers(bytes: &mut [u8], pos: usize, defs: &Vec<Definition>, start: u32) -> (r: Result<
    usize,
    Error,
>)
    requires
        forall|i: int|
            0 <= i < defs@.len() ==> (#[trigger] definition_views(defs@)[i]).encodable(),
        start + payloads_wire(definition_views(defs@)).len() <= u32::MAX,
        pos + HEADER_SIZE * defs@.len() <= old(bytes)@.len(),
    ensures
        laid(
            old(bytes)@,
            pos as int,
            headers_wire(start as int, definition_views(defs@)),
            r,
            final(bytes)@,
        ),
{
    let ghost views = definition_views(defs@);
    let ghost headers = placed_headers(start as int, views);
    let n: usize = defs.len();
    let mut at: usize = pos;
    let mut payload_at: u32 = start;
    let mut i: usize = 0;
    proof {
        assert(overlay(bytes@, pos as int, list_wire(header_rule(), headers.take(0))) =~= bytes@);
    }
    while i < n
        invariant
            i <= n,
            n == defs@.len(),
            views == definition_views(defs@),
            headers == placed_headers(start as int, views),
            forall|k: int| 0 <= k < views.len() ==> (#[trigger] views[k]).encodable(),
            start + payloads_wire(views).len() <= u32::MAX,
            payload_at == payload_pos(start as int, views, i as int),
            at == pos + HEADER_SIZE * i,
            pos + HEADER_SIZE * n <= bytes@.len(),
            bytes@.len() == old(bytes)@.len(),
            bytes@ == overlay(
                old(bytes)@,
                pos as int,
                list_wire(header_rule(), headers.take(i as int)),
            ),
        decreases n - i,
    {
        proof {
            lemma_list_wire_push(payload_rule(), views, i as int);
            lemma_list_wire_prefix(payload_rule(), views, i + 1);
            lemma_list_wire_push(header_rule(), headers, i as int);
            lemma_def_header_len(headers[i as int]);
            lemma_header_list_len(headers.take(i as int));
        }
        let size: u32 = match defs[i].measure() {
            Some(size) => size,
            None => {
                return Err(Error::Incomplete);
            },
        };
        let header = DefinitionHeader::from_definition(&defs[i], size, payload_at);
        proof {
            lemma_overlay_concat(
                old(bytes)@,
                pos as int,
                list_wire(header_rule(), headers.take(i as int)),
                def_header_wire(header),
            );
        }
        at = put_def_header(bytes, at, &header)?;
        payload_at = payload_at + size;
        i += 1;
    }
    proof {
        assert(headers.take(n as int) =~= headers);
        lemma_header_list_len(headers);
    }
    Ok(at)
}

/// Lays the payloads of the definitions over the buffer at `pos`.
fn put_payloads(bytes: &mut [u8], pos: usize, defs: &Vec<Definition>) -> (r: Result<usize, Error>)
    requires
        forall|i: int|
            0 <= i < defs@.len() ==> (#[trigger] definition_views(defs@)[i]).encodable(),
        pos + payloads_wire(definition_views(defs@)).len() <= old(bytes)@.len(),
    ensures
        laid(old(bytes)@, pos as int, payloads_wire(definition_views(defs@)), r, final(bytes)@),
{
    let ghost views = definition_views(defs@);
    let n: usize = defs.len();
    let mut at: usize = pos;
    let mut i: usize = 0;
    proof {
        assert(overlay(bytes@, pos as int, payloads_wire(views.take(0))) =~= bytes@);
    }
    while i < n
        invariant
            i <= n,
            n == defs@.len(),
            views == definition_views(defs@),
            forall|k: int| 0 <= k < views.len() ==> (#[trigger] views[k]).encodable(),
            at == pos + payloads_wire(views.take(i as int)).len(),
            pos + payloads_wire(views).len() <= bytes@.len(),
            bytes@.len() == old(bytes)@.len(),
            bytes@ == overlay(old(bytes)@, pos as int, payloads_wire(views.take(i as int))),
        decreases n - i,
    {
        proof {
            lemma_list_wire_push(payload_rule(), views, i as int);
            lemma_list_wire_prefix(payload_rule(), views, i + 1);
            lemma_overlay_concat(
                old(bytes)@,
                pos as int,
                payloads_wire(views.take(i as int)),
                views[i as int].payload(),
            );
        }
        at = defs[i].put(bytes, at)?;
        i += 1;
    }
    proof {
        assert(views.take(n as int) =~= views);
    }
    Ok(at)
}

/// What writing a bundle into a buffer leaves behind. A bundle that cannot
/// be written, and a buffer that is too short, are refused with the buffer
/// as it was; otherwise the file lies over the start of the buffer, and its
/// length comes back.
pub open spec fn bundle_written(
    b: BundleView,
    before: Seq<u8>,
    r: Result<usize, Error>,
    after: Seq<u8>,
) -> bool {
    if !writable(b) {
        r == Err::<usize, Error>(unwritable_error()) && after == before
    } else if before.len() < layout(b).end {
        r == Err::<usize, Error>(Error::Incomplete) && after == before
    } else {
        r == Ok::<usize, Error>(layout(b).end as usize) && after == overlay(before, 0, file_bytes(b))
    }
}

/// Where the parts of the body start in the buffer, and where the body
/// ends.
struct Places {
    cnames: usize,
    tdb_ids: usize,
    resources: usize,
    definitions: usize,
    strings: usize,
    payloads: usize,
    end: usize,
}

impl Places {
    /// Whether the parts start where the layout says.
    spec fn matches(self, at: crate::layout::Layout) -> bool {
        &&& self.cnames == at.cnames
        &&& self.tdb_ids == at.tdb_ids
        &&& self.resources == at.resources
        &&& self.definitions == at.definitions
        &&& self.strings == at.strings
        &&& self.payloads == at.payloads
        &&& self.end == at.end
    }
}

/// A bundle whose strings have been given their places in the string data:
/// it is ready to be written.
#[derive(Debug)]
pub struct WriteableBundle {
    bundle: ScriptBundle,
    string_data: StringData,
}

impl View for WriteableBundle {
    type V = BundleView;

    closed spec fn view(&self) -> BundleView {
        self.bundle@
    }
}

impl ScriptBundle {
    /// Gives every string of the bundle its place in the string data.
    pub fn into_writeable(self) -> (w: WriteableBundle)
        ensures
            w@ == self@,
    {
        let string_data = StringData::build(&self);
        WriteableBundle { bundle: self, string_data }
    }
}

impl WriteableBundle {
    #[verifier::type_invariant]
    closed spec fn placed(self) -> bool {
        self.string_data.tracks(all_strings(self.bundle@))
    }

    /// The bundle.
    pub fn bundle(&self) -> (bundle: &ScriptBundle)
        ensures
            bundle@ == self@,
    {
        &self.bundle
    }

    /// The bundle, to be changed again.
    pub fn into_bundle(self) -> (bundle: ScriptBundle)
        ensures
            bundle@ == self@,
    {
        self.bundle
    }

    /// The number of bytes that the written bundle takes, if the bundle can
    /// be written.
    pub fn measure(&self) -> (r: Option<usize>)
        ensures
            r == if writable(self@) {
                Some(layout(self@).end as usize)
            } else {
                None
            },
    {
        proof {
            use_type_invariant(self);
            lemma_layout(self@);
        }
        if !self.string_data.fits {
            return None;
        }
        let defs = self.bundle.definitions();
        let ghost views = definition_views(defs@);
        let n: usize = defs.len();
        let base: u64 = HEADER_BYTES as u64 + self.string_data.length as u64 + 4
            * self.bundle.cnames().len() as u64 + 4 * self.bundle.tdb_ids().len() as u64 + 4
            * self.bundle.resources().len() as u64 + HEADER_SIZE as u64 * n as u64 + 4
            * self.bundle.strings().len() as u64;
        if base > 0xFFFF_FFFF {
            return None;
        }
        let mut total: u64 = base;
        let mut i: usize = 0;
        while i < n
            invariant
                i <= n,
                n == defs@.len(),
                views == definition_views(defs@),
                views == self@.definitions,
                base == layout(self@).payloads,
                total == base + payloads_wire(views.take(i as int)).len(),
                total <= u32::MAX,
                forall|k: int| 0 <= k < i ==> (#[trigger] views[k]).encodable(),
            decreases n - i,
        {
            proof {
                lemma_list_wire_push(payload_rule(), views, i as int);
                lemma_list_wire_prefix(payload_rule(), views, i + 1);
            }
            match defs[i].measure() {
                Some(size) => {
                    total = total + size as u64;
                },
                None => {
                    return None;
                },
            }
            if total > 0xFFFF_FFFF {
                return None;
            }
            i += 1;
        }
        proof {
            assert(views.take(n as int) =~= views);
        }
        Some(total as usize)
    }

    /// Lays all that follows the header over the buffer; hands back where
    /// the parts start.
    fn write_body(&self, bytes: &mut [u8]) -> (r: Result<Places, Error>)
        requires
            writable(self@),
            layout(self@).end <= old(bytes)@.len(),
        ensures
            r is Ok,
            r->Ok_0.matches(layout(self@)),
            final(bytes)@ == overlay(old(bytes)@, HEADER_BYTES as int, body_wire(self@)),
    {
        let ghost b0 = bytes@;
        let ghost v = self@;
        let ghost strings = blob_strings(v);
        let ghost at = layout(v);
        proof {
            use_type_invariant(self);
            lemma_layout(v);
            lemma_pools_in_blob(v);
        }
        let defs = self.bundle.definitions();
        let cnames = self.bundle.cnames();
        let tdb_ids = self.bundle.tdb_ids();
        let resources = self.bundle.resources();
        let literals = self.bundle.strings();
        let ghost w0 = blob_wire(strings);
        let ghost w1 = pool_table_wire(strings, v.cnames);
        let ghost w2 = pool_table_wire(strings, v.tdb_ids);
        let ghost w3 = pool_table_wire(strings, v.resources);
        let ghost w4 = headers_wire(at.payloads, v.definitions);
        let ghost w5 = pool_table_wire(strings, v.strings);
        let ghost w6 = payloads_wire(v.definitions);
        proof {
            lemma_pool_table_len(strings, v.cnames);
            lemma_pool_table_len(strings, v.tdb_ids);
            lemma_pool_table_len(strings, v.resources);
            lemma_pool_table_len(strings, v.strings);
            lemma_headers_len(at.payloads, v.definitions);
            assert forall|i: int| 0 <= i < defs@.len() implies (#[trigger] definition_views(
                defs@,
            )[i]).encodable() by {
            }
        }
        let start: usize = HEADER_BYTES as usize;
        let n0 = put_blob(bytes, start, &self.string_data, Ghost(strings))?;
        assert(bytes@ == overlay(b0, start as int, w0) && n0 == at.cnames);
        let n1 = put_pool_table(bytes, n0, cnames, &self.string_data, Ghost(strings))?;
        assert(bytes@ == overlay(b0, start as int, w0 + w1) && n1 == at.tdb_ids) by {
            lemma_overlay_concat(b0, start as int, w0, w1);
        }
        let n2 = put_pool_table(bytes, n1, tdb_ids, &self.string_data, Ghost(strings))?;
        assert(bytes@ == overlay(b0, start as int, w0 + w1 + w2) && n2 == at.resources) by {
            lemma_overlay_concat(b0, start as int, w0 + w1, w2);
        }
        let n3 = put_pool_table(bytes, n2, resources, &self.string_data, Ghost(strings))?;
        assert(bytes@ == overlay(b0, start as int, w0 + w1 + w2 + w3) && n3 == at.definitions) by {
            lemma_overlay_concat(b0, start as int, w0 + w1 + w2, w3);
        }
        let payloads: usize = n3 + HEADER_SIZE as usize * defs.len() + 4 * literals.len();
        let n4 = put_headers(bytes, n3, defs, payloads as u32)?;
        assert(bytes@ == overlay(b0, start as int, w0 + w1 + w2 + w3 + w4) && n4 == at.strings) by {
            lemma_overlay_concat(b0, start as int, w0 + w1 + w2 + w3, w4);
        }
        let n5 = put_pool_table(bytes, n4, literals, &self.string_data, Ghost(strings))?;
        assert(bytes@ == overlay(b0, start as int, w0 + w1 + w2 + w3 + w4 + w5) && n5
            == at.payloads) by {
            lemma_overlay_concat(b0, start as int, w0 + w1 + w2 + w3 + w4, w5);
        }
        let n6 = put_payloads(bytes, n5, defs)?;
        assert(bytes@ == overlay(b0, start as int, body_wire(v)) && n6 == at.end) by {
            lemma_overlay_concat(b0, start as int, w0 + w1 + w2 + w3 + w4 + w5, w6);
        }
        Ok(
            Places {
                cnames: n0,
                tdb_ids: n1,
                resources: n2,
                definitions: n3,
                strings: n4,
                payloads: n5,
                end: n6,
            },
        )
    }

    /// Lays the header over the start of a buffer that holds the body: takes
    /// the checksums of the parts, then that of the header itself.
    fn write_header(&self, bytes: &mut [u8], places: &Places) -> (r: Result<usize, Error>)
        requires
            writable(self@),
            places.matches(layout(self@)),
            holds_at(old(bytes)@, HEADER_BYTES as int, body_wire(self@)),
        ensures
            r is Ok,
            final(bytes)@ == overlay(old(bytes)@, 0, header_wire(file_header(self@))),
    {
        let ghost v = self@;
        proof {
            lemma_layout(v);
            lemma_body_parts(bytes@, v);
            let strings = blob_strings(v);
            lemma_pool_table_len(strings, v.cnames);
            lemma_pool_table_len(strings, v.tdb_ids);
            lemma_pool_table_len(strings, v.resources);
            lemma_pool_table_len(strings, v.strings);
            lemma_headers_len(layout(v).payloads, v.definitions);
        }
        let start: usize = HEADER_BYTES as usize;
        let string_data = TableHeader::new(
            HEADER_BYTES,
            (places.cnames - start) as u32,
            slice_subrange(bytes, start, places.cnames),
        );
        let cnames = TableHeader::new(
            places.cnames as u32,
            self.bundle.cnames().len() as u32,
            slice_subrange(bytes, places.cnames, places.tdb_ids),
        );
        let tweakdb_ids = TableHeader::new(
            places.tdb_ids as u32,
            self.bundle.tdb_ids().len() as u32,
            slice_subrange(bytes, places.tdb_ids, places.resources),
        );
        let resources = TableHeader::new(
            places.resources as u32,
            self.bundle.resources().len() as u32,
            slice_subrange(bytes, places.resources, places.definitions),
        );
        let definitions = TableHeader::new(
            places.definitions as u32,
            self.bundle.definitions().len() as u32,
            slice_subrange(bytes, places.definitions, places.strings),
        );
        let strings = TableHeader::new(
            places.strings as u32,
            self.bundle.strings().len() as u32,
            slice_subrange(bytes, places.strings, places.payloads),
        );
        let unstamped = Header {
            magic: MAGIC,
            version: SUPPORTED_VERSION,
            flags: 0,
            timestamp: Timestamp::new(),
            build: 0,
            crc: UNSTAMPED,
            segments: SEGMENTS,
            string_data,
            cnames,
            tweakdb_ids,
            resources,
            definitions,
            strings,
        };
        proof {
            lemma_header_len(unstamped);
        }
        let mut scratch = zeroed(HEADER_BYTES as usize);
        let ghost zeros = scratch@;
        put_header(scratch.as_mut_slice(), 0, &unstamped)?;
        proof {
            lemma_overlay_whole(zeros, header_wire(unstamped));
        }
        let header = Header { crc: checksum(scratch.as_slice()), ..unstamped };
        proof {
            lemma_header_len(header);
        }
        put_header(bytes, 0, &header)
    }

    /// Writes the bundle into the buffer from its start on; hands back the
    /// number of bytes written.
    pub fn try_write(&self, bytes: &mut [u8]) -> (r: Result<usize, Error>)
        ensures
            bundle_written(self@, old(bytes)@, r, final(bytes)@),
    {
        let ghost b0 = bytes@;
        proof {
            lemma_layout(self@);
        }
        let end: usize = match self.measure() {
            Some(end) => end,
            None => {
                return Err(Error::BadInput { err: "bundle does not fit the format" });
            },
        };
        if bytes.len() < end {
            return Err(Error::Incomplete);
        }
        let places = self.write_body(bytes)?;
        proof {
            lemma_overlay_holds(b0, HEADER_BYTES as int, body_wire(self@));
        }
        self.write_header(bytes, &places)?;
        proof {
            lemma_overlay_front(b0, header_wire(file_header(self@)), body_wire(self@));
        }
        Ok(end)
    }

    /// The written bundle, or the error if the bundle cannot be written.
    pub fn to_bytes(&self) -> (r: Result<Vec<u8>, Error>)
        ensures
            match r {
                Ok(bytes) => writable(self@) && bytes@ == file_bytes(self@),
                Err(e) => !writable(self@) && e == unwritable_error(),
            },
    {
        proof {
            lemma_layout(self@);
        }
        let end: usize = match self.measure() {
            Some(end) => end,
            None => {
                return Err(Error::BadInput { err: "bundle does not fit the format" });
            },
        };
        let mut bytes = zeroed(end);
        let ghost zeros = bytes@;
        self.try_write(bytes.as_mut_slice())?;
        proof {
            lemma_overlay_whole(zeros, file_bytes(self@));
        }
        Ok(bytes)
    }
}

} // verus!
