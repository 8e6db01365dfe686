//! Where everything lies in a written bundle, and the bytes of the whole.
//!
//! Behind the header comes the string data: every string of the four pools
//! once, in the order of first occurrence, each closed by a zero byte. Then
//! come the tables of names, tuning-database identifiers and resources, the
//! table of definition headers, the table of string literals, and last the
//! payloads of the definitions in the order of their slots.

use vstd::prelude::*;
use vstd::utf8::encode_utf8;
use crate::bundle::BundleView;
use crate::checksum::crc32;
use crate::codec::{holds_at, le32, le8, lemma_holds_at_concat, lemma_le_len};
use crate::definition::{
    def_header_wire, DefinitionHeader, DefinitionView, HEADER_SIZE, lemma_def_header_len,
};
use crate::header::{
    Header, HEADER_BYTES, header_wire, lemma_header_len, MAGIC, SEGMENTS, SUPPORTED_VERSION,
    TableHeader, Timestamp, UNSTAMPED,
};
use crate::list::{lemma_list_wire_len, lemma_list_wire_prefix, lemma_unique, list_wire, unique};

verus! {

/// A string of the string data, as bytes: its UTF-8 encoding and a zero.
pub open spec fn cstr_wire(s: Seq<char>) -> Seq<u8> {
    encode_utf8(s) + le8(0)
}

/// The rule by which a string of the string data is encoded.
pub open spec fn cstr_rule() -> spec_fn(Seq<char>) -> Seq<u8> {
    |s: Seq<char>| cstr_wire(s)
}

/// The strings of the four pools, one pool after the other.
pub open spec fn all_strings(b: BundleView) -> Seq<Seq<char>> {
    b.cnames + b.tdb_ids + b.resources + b.strings
}

/// The strings of the string data: those of the four pools, each once, in
/// the order of first occurrence.
pub open spec fn blob_strings(b: BundleView) -> Seq<Seq<char>> {
    unique(all_strings(b))
}

/// The string data, as bytes.
pub open spec fn blob_wire(strings: Seq<Seq<char>>) -> Seq<u8> {
    list_wire(cstr_rule(), strings)
}

/// Where in the string data the string with the given position starts.
pub open spec fn blob_offset_at(strings: Seq<Seq<char>>, at: int) -> int {
    blob_wire(strings.take(at)).len() as int
}

/// Where in the string data a string starts.
pub open spec fn blob_offset(strings: Seq<Seq<char>>, s: Seq<char>) -> int {
    blob_offset_at(strings, strings.index_of(s))
}

/// The rule by which an entry of a table of strings is encoded: the offset
/// of the string in the string data.
pub open spec fn offset_rule(strings: Seq<Seq<char>>) -> spec_fn(Seq<char>) -> Seq<u8> {
    |s: Seq<char>| le32(blob_offset(strings, s) as u32)
}

/// The table of a pool, as bytes.
pub open spec fn pool_table_wire(strings: Seq<Seq<char>>, pool: Seq<Seq<char>>) -> Seq<u8> {
    list_wire(offset_rule(strings), pool)
}

/// The rule by which the payload of a definition is encoded.
pub open spec fn payload_rule() -> spec_fn(DefinitionView) -> Seq<u8> {
    |d: DefinitionView| d.payload()
}

/// The payloads of the definitions, as bytes.
pub open spec fn payloads_wire(defs: Seq<DefinitionView>) -> Seq<u8> {
    list_wire(payload_rule(), defs)
}

/// Where the payload of the definition in slot `i` starts, if the payloads
/// start at `start`.
pub open spec fn payload_pos(start: int, defs: Seq<DefinitionView>, i: int) -> int {
    start + payloads_wire(defs.take(i)).len()
}

/// The header of the definition in slot `i`, if the payloads start at
/// `start`.
pub open spec fn placed_header(start: int, defs: Seq<DefinitionView>, i: int) -> DefinitionHeader {
    defs[i].header(defs[i].payload().len() as u32, payload_pos(start, defs, i) as u32)
}

/// The headers of the definitions, if the payloads start at `start`.
pub open spec fn placed_headers(start: int, defs: Seq<DefinitionView>) -> Seq<DefinitionHeader> {
    Seq::new(defs.len(), |i: int| placed_header(start, defs, i))
}

/// The rule by which the header of a definition is encoded.
pub open spec fn header_rule() -> spec_fn(DefinitionHeader) -> Seq<u8> {
    |h: DefinitionHeader| def_header_wire(h)
}

/// The table of definition headers, as bytes.
pub open spec fn headers_wire(start: int, defs: Seq<DefinitionView>) -> Seq<u8> {
    list_wire(header_rule(), placed_headers(start, defs))
}

/// Where the parts of a written bundle start, and where the bundle ends.
pub struct Layout {
    pub blob: int,
    pub cnames: int,
    pub tdb_ids: int,
    pub resources: int,
    pub definitions: int,
    pub strings: int,
    pub payloads: int,
    pub end: int,
}

/// Where the parts of the written bundle start.
pub open spec fn layout(b: BundleView) -> Layout {
    let blob = HEADER_BYTES as int;
    let cnames = blob + blob_wire(blob_strings(b)).len();
    let tdb_ids = cnames + 4 * b.cnames.len();
    let resources = tdb_ids + 4 * b.tdb_ids.len();
    let definitions = resources + 4 * b.resources.len();
    let strings = definitions + HEADER_SIZE * b.definitions.len();
    let payloads = strings + 4 * b.strings.len();
    let end = payloads + payloads_wire(b.definitions).len();
    Layout { blob, cnames, tdb_ids, resources, definitions, strings, payloads, end }
}

/// Whether the bundle can be written: every definition is encodable, and
/// every position in the file fits in 32 bits.
pub open spec fn writable(b: BundleView) -> bool {
    &&& forall|i: int| 0 <= i < b.definitions.len() ==> (#[trigger] b.definitions[i]).encodable()
    &&& layout(b).end <= u32::MAX
}

/// All that follows the header, as bytes.
pub open spec fn body_wire(b: BundleView) -> Seq<u8> {
    let strings = blob_strings(b);
    blob_wire(strings) + pool_table_wire(strings, b.cnames) + pool_table_wire(strings, b.tdb_ids)
        + pool_table_wire(strings, b.resources) + headers_wire(layout(b).payloads, b.definitions)
        + pool_table_wire(strings, b.strings) + payloads_wire(b.definitions)
}

/// What the header says of a table: where it starts, how many entries it
/// has, and the checksum of its bytes.
pub open spec fn table_of(offset: int, count: int, data: Seq<u8>) -> TableHeader {
    TableHeader { offset: offset as u32, count: count as u32, hash: crc32(data) }
}

/// The header of the written bundle before its own checksum is computed:
/// flags, build and timestamp are zero, and the checksum field holds the
/// placeholder.
pub open spec fn unstamped_header(b: BundleView) -> Header {
    let strings = blob_strings(b);
    let at = layout(b);
    Header {
        magic: MAGIC,
        version: SUPPORTED_VERSION,
        flags: 0,
        timestamp: Timestamp { bits: 0 },
        build: 0,
        crc: UNSTAMPED,
        segments: SEGMENTS,
        string_data: table_of(at.blob, blob_wire(strings).len() as int, blob_wire(strings)),
        cnames: table_of(at.cnames, b.cnames.len() as int, pool_table_wire(strings, b.cnames)),
        tweakdb_ids: table_of(
            at.tdb_ids,
            b.tdb_ids.len() as int,
            pool_table_wire(strings, b.tdb_ids),
        ),
        resources: table_of(
            at.resources,
            b.resources.len() as int,
            pool_table_wire(strings, b.resources),
        ),
        definitions: table_of(
            at.definitions,
            b.definitions.len() as int,
            headers_wire(at.payloads, b.definitions),
        ),
        strings: table_of(at.strings, b.strings.len() as int, pool_table_wire(strings, b.strings)),
    }
}

/// The header of the written bundle: its checksum field holds the checksum
/// of the header with the placeholder in that field.
pub open spec fn file_header(b: BundleView) -> Header {
    Header { crc: crc32(header_wire(unstamped_header(b))), ..unstamped_header(b) }
}

/// The written bundle, as bytes.
pub open spec fn file_bytes(b: BundleView) -> Seq<u8> {
    header_wire(file_header(b)) + body_wire(b)
}

/// A table of a pool takes four bytes for each string.
pub proof fn lemma_pool_table_len(strings: Seq<Seq<char>>, pool: Seq<Seq<char>>)
    ensures
        pool_table_wire(strings, pool).len() == 4 * pool.len(),
{
    lemma_le_len();
    lemma_list_wire_len(offset_rule(strings), pool, 4);
}

/// Headers in a row take twenty bytes each.
pub proof fn lemma_header_list_len(headers: Seq<DefinitionHeader>)
    ensures
        list_wire(header_rule(), headers).len() == HEADER_SIZE * headers.len(),
{
    assert forall|i: int| 0 <= i < headers.len() implies (#[trigger] header_rule()(
        headers[i],
    )).len() == 20 by {
        lemma_def_header_len(headers[i]);
    }
    lemma_list_wire_len(header_rule(), headers, 20);
}

/// The table of definition headers takes twenty bytes for each definition.
pub proof fn lemma_headers_len(start: int, defs: Seq<DefinitionView>)
    ensures
        headers_wire(start, defs).len() == HEADER_SIZE * defs.len(),
{
    lemma_header_list_len(placed_headers(start, defs));
}

/// The parts of the body lie where the layout says, and the written bundle
/// ends where the layout says.
pub proof fn lemma_layout(b: BundleView)
    ensures
        header_wire(file_header(b)).len() == HEADER_BYTES,
        header_wire(unstamped_header(b)).len() == HEADER_BYTES,
        body_wire(b).len() == layout(b).end - HEADER_BYTES,
        file_bytes(b).len() == layout(b).end,
        HEADER_BYTES <= layout(b).cnames <= layout(b).tdb_ids <= layout(b).resources <= layout(
            b,
        ).definitions <= layout(b).strings <= layout(b).payloads <= layout(b).end,
{
    let strings = blob_strings(b);
    lemma_header_len(file_header(b));
    lemma_header_len(unstamped_header(b));
    lemma_pool_table_len(strings, b.cnames);
    lemma_pool_table_len(strings, b.tdb_ids);
    lemma_pool_table_len(strings, b.resources);
    lemma_pool_table_len(strings, b.strings);
    lemma_headers_len(layout(b).payloads, b.definitions);
}

/// The payload of every definition of a writable bundle starts and ends
/// within the payloads.
pub proof fn lemma_payload_pos(b: BundleView, i: int)
    requires
        0 <= i < b.definitions.len(),
    ensures
        layout(b).payloads <= payload_pos(layout(b).payloads, b.definitions, i),
        payload_pos(layout(b).payloads, b.definitions, i) + b.definitions[i].payload().len()
            == payload_pos(layout(b).payloads, b.definitions, i + 1),
        payload_pos(layout(b).payloads, b.definitions, i + 1) <= layout(b).end,
{
    crate::list::lemma_list_wire_push(payload_rule(), b.definitions, i);
    lemma_list_wire_prefix(payload_rule(), b.definitions, i + 1);
}

/// The string data holds no string twice, and holds every string of the
/// four pools.
pub proof fn lemma_pools_in_blob(b: BundleView)
    ensures
        blob_strings(b).no_duplicates(),
        forall|i: int| 0 <= i < b.cnames.len() ==> blob_strings(b).contains(#[trigger] b.cnames[i]),
        forall|i: int|
            0 <= i < b.tdb_ids.len() ==> blob_strings(b).contains(#[trigger] b.tdb_ids[i]),
        forall|i: int|
            0 <= i < b.resources.len() ==> blob_strings(b).contains(#[trigger] b.resources[i]),
        forall|i: int|
            0 <= i < b.strings.len() ==> blob_strings(b).contains(#[trigger] b.strings[i]),
{
    let all = all_strings(b);
    lemma_unique(all);
    assert forall|i: int| 0 <= i < b.cnames.len() implies blob_strings(b).contains(
        #[trigger] b.cnames[i],
    ) by {
        assert(all[i] == b.cnames[i]);
        assert(all.contains(b.cnames[i]));
    }
    assert forall|i: int| 0 <= i < b.tdb_ids.len() implies blob_strings(b).contains(
        #[trigger] b.tdb_ids[i],
    ) by {
        assert(all[b.cnames.len() + i] == b.tdb_ids[i]);
        assert(all.contains(b.tdb_ids[i]));
    }
    assert forall|i: int| 0 <= i < b.resources.len() implies blob_strings(b).contains(
        #[trigger] b.resources[i],
    ) by {
        assert(all[b.cnames.len() + b.tdb_ids.len() + i] == b.resources[i]);
        assert(all.contains(b.resources[i]));
    }
    assert forall|i: int| 0 <= i < b.strings.len() implies blob_strings(b).contains(
        #[trigger] b.strings[i],
    ) by {
        assert(all[b.cnames.len() + b.tdb_ids.len() + b.resources.len() + i] == b.strings[i]);
        assert(all.contains(b.strings[i]));
    }
}

/// A buffer that holds the body behind the header holds each part of the
/// body where the layout says.
pub proof fn lemma_body_parts(bytes: Seq<u8>, b: BundleView)
    requires
        holds_at(bytes, HEADER_BYTES as int, body_wire(b)),
    ensures
        holds_at(bytes, layout(b).blob, blob_wire(blob_strings(b))),
        holds_at(bytes, layout(b).cnames, pool_table_wire(blob_strings(b), b.cnames)),
        holds_at(bytes, layout(b).tdb_ids, pool_table_wire(blob_strings(b), b.tdb_ids)),
        holds_at(bytes, layout(b).resources, pool_table_wire(blob_strings(b), b.resources)),
        holds_at(bytes, layout(b).definitions, headers_wire(layout(b).payloads, b.definitions)),
        holds_at(bytes, layout(b).strings, pool_table_wire(blob_strings(b), b.strings)),
        holds_at(bytes, layout(b).payloads, payloads_wire(b.definitions)),
{
    let strings = blob_strings(b);
    let w0 = blob_wire(strings);
    let w1 = pool_table_wire(strings, b.cnames);
    let w2 = pool_table_wire(strings, b.tdb_ids);
    let w3 = pool_table_wire(strings, b.resources);
    let w4 = headers_wire(layout(b).payloads, b.definitions);
    let w5 = pool_table_wire(strings, b.strings);
    let w6 = payloads_wire(b.definitions);
    let pos = HEADER_BYTES as int;
    lemma_pool_table_len(strings, b.cnames);
    lemma_pool_table_len(strings, b.tdb_ids);
    lemma_pool_table_len(strings, b.resources);
    lemma_pool_table_len(strings, b.strings);
    lemma_headers_len(layout(b).payloads, b.definitions);
    lemma_holds_at_concat(bytes, pos, w0 + w1 + w2 + w3 + w4 + w5, w6);
    lemma_holds_at_concat(bytes, pos, w0 + w1 + w2 + w3 + w4, w5);
    lemma_holds_at_concat(bytes, pos, w0 + w1 + w2 + w3, w4);
    lemma_holds_at_concat(bytes, pos, w0 + w1 + w2, w3);
    lemma_holds_at_concat(bytes, pos, w0 + w1, w2);
    lemma_holds_at_concat(bytes, pos, w0, w1);
}

} // verus!
