//! What holds of reading and writing together.

use vstd::prelude::*;
use vstd::utf8::{decode_utf8_encode_utf8, encode_utf8};
use crate::bundle::{
    BundleView, entry_parser, parse_bundle, parse_definition_table, parse_pool_table, string_entry,
};
use crate::checksum::crc32;
use crate::codec::{
    holds_at, lemma_holds_at_concat, lemma_holds_at_within, lemma_le_len, lemma_parse_cstr_at,
    lemma_parse_u32_at, lemma_zero_from_bounds, parse_u32, zero_from,
};
use crate::definition::{
    def_header_wire, Definition, DefinitionView, HEADER_SIZE, lemma_def_header_len,
    lemma_parse_def_header_at, lemma_parse_payload_at, lemma_parse_payload_wf, parse_def_header,
};
use crate::error::Error;
use crate::header::{
    Header, HEADER_BYTES, header_wire, lemma_parse_header_at, parse_file_header, SUPPORTED_VERSION,
    TableHeader, UNSTAMPED,
};
use crate::layout::{
    all_strings, blob_offset, blob_offset_at, blob_strings, blob_wire, body_wire, cstr_rule,
    cstr_wire, file_bytes, file_header, header_rule, headers_wire, layout, lemma_body_parts,
    lemma_header_list_len, lemma_headers_len, lemma_layout, lemma_payload_pos, lemma_pool_table_len,
    lemma_pools_in_blob, offset_rule, payload_pos, payload_rule, payloads_wire, placed_headers,
    pool_table_wire, unstamped_header, writable,
};
use crate::list::{
    lemma_list_wire_at, lemma_list_wire_prefix, lemma_parse_list_each, lemma_parse_list_fixed,
    lemma_unique, lemma_unique_of_distinct, parse_list, unique,
};

verus! {

/// Whether the encoding of a string holds no zero byte.
pub open spec fn zero_free(s: Seq<char>) -> bool {
    !encode_utf8(s).contains(0u8)
}

/// Whether a pool holds no string twice and no string with a zero byte in
/// its encoding.
pub open spec fn pool_wf(pool: Seq<Seq<char>>) -> bool {
    &&& pool.no_duplicates()
    &&& forall|i: int| 0 <= i < pool.len() ==> zero_free(#[trigger] pool[i])
}

/// Whether a bundle is one that reading can give: slot zero of its
/// definitions is `Undefined`, every other definition is well formed, and
/// its pools are.
pub open spec fn bundle_wf(b: BundleView) -> bool {
    &&& b.has_sentinel()
    &&& forall|i: int| 1 <= i < b.definitions.len() ==> (#[trigger] b.definitions[i]).wf()
    &&& pool_wf(b.cnames)
    &&& pool_wf(b.tdb_ids)
    &&& pool_wf(b.resources)
    &&& pool_wf(b.strings)
}

/// A string that a table entry points at has no zero byte in its encoding.
proof fn lemma_string_entry_zero_free(bytes: Seq<u8>, header: Header, pos: int)
    requires
        string_entry(bytes, header, pos) is Ok,
    ensures
        zero_free(string_entry(bytes, header, pos)->Ok_0),
{
    let (rel, _) = parse_u32(bytes, pos)->Ok_0;
    let at = header.string_data.offset + rel;
    let end = zero_from(bytes, at);
    let raw = bytes.subrange(at, end);
    lemma_zero_from_bounds(bytes, at);
    decode_utf8_encode_utf8(raw);
    if raw.contains(0u8) {
        let k = choose|k: int| 0 <= k < raw.len() && raw[k] == 0u8;
        assert(bytes[at + k] == 0u8);
    }
}

/// The pool that a table of strings makes is well formed.
proof fn lemma_pool_table_wf(bytes: Seq<u8>, header: Header, table: TableHeader)
    requires
        parse_pool_table(bytes, header, table) is Ok,
    ensures
        pool_wf(parse_pool_table(bytes, header, table)->Ok_0),
{
    let p = entry_parser::<String>(header);
    let (items, _) = parse_list(p, bytes, table.offset as int, table.count as nat)->Ok_0;
    assert forall|at: int| #[trigger] p(bytes, at) is Ok implies zero_free(
        p(bytes, at)->Ok_0.0,
    ) by {
        lemma_string_entry_zero_free(bytes, header, at);
    }
    lemma_parse_list_each(
        p,
        |s: Seq<char>| zero_free(s),
        bytes,
        table.offset as int,
        table.count as nat,
    );
    lemma_unique(items);
    let pool = unique(items);
    assert forall|i: int| 0 <= i < pool.len() implies zero_free(#[trigger] pool[i]) by {
        assert(items.contains(pool[i]));
        let k = choose|k: int| 0 <= k < items.len() && items[k] == pool[i];
    }
}

/// The definitions that the table of definitions makes have `Undefined` in
/// slot zero and well-formed definitions in all others.
proof fn lemma_definition_table_wf(bytes: Seq<u8>, header: Header)
    requires
        parse_definition_table(bytes, header) is Ok,
    ensures
        ({
            let defs = parse_definition_table(bytes, header)->Ok_0;
            &&& 1 <= defs.len() <= 0x1_0000_0000
            &&& defs[0] is Undefined
            &&& forall|i: int| 1 <= i < defs.len() ==> (#[trigger] defs[i]).wf()
        }),
{
    let table = header.definitions;
    if table.count > 0 {
        let p = entry_parser::<Definition>(header);
        let start = table.offset + HEADER_SIZE;
        let n = (table.count - 1) as nat;
        assert forall|at: int| #[trigger] p(bytes, at) is Ok implies p(bytes, at)->Ok_0.0.wf() by {
            let (h, _) = parse_def_header(bytes, at)->Ok_0;
            lemma_parse_payload_wf(h, bytes);
        }
        lemma_parse_list_each(p, |d: DefinitionView| d.wf(), bytes, start, n);
        let (rest, _) = parse_list(p, bytes, start, n)->Ok_0;
        let defs = seq![DefinitionView::Undefined] + rest;
        assert forall|i: int| 1 <= i < defs.len() implies (#[trigger] defs[i]).wf() by {
        }
    }
}

/// Whatever a file holds in slot zero of its table of definitions, the
/// bundle read from it has `Undefined` there.
pub proof fn lemma_sentinel(bytes: Seq<u8>)
    requires
        parse_bundle(bytes) is Ok,
    ensures
        parse_bundle(bytes)->Ok_0.definitions.len() >= 1,
        parse_bundle(bytes)->Ok_0.definitions[0] is Undefined,
{
    let header = parse_file_header(bytes)->Ok_0;
    lemma_definition_table_wf(bytes, header);
}

/// What is read from a file is a well-formed bundle.
pub proof fn lemma_read_wf(bytes: Seq<u8>)
    requires
        parse_bundle(bytes) is Ok,
    ensures
        bundle_wf(parse_bundle(bytes)->Ok_0),
{
    let header = parse_file_header(bytes)->Ok_0;
    lemma_pool_table_wf(bytes, header, header.cnames);
    lemma_pool_table_wf(bytes, header, header.tweakdb_ids);
    lemma_pool_table_wf(bytes, header, header.resources);
    lemma_pool_table_wf(bytes, header, header.strings);
    lemma_definition_table_wf(bytes, header);
}

/// The header of a written bundle is read back, and passes the checks of
/// the magic number and the version.
proof fn lemma_header_read_back(b: BundleView)
    requires
        writable(b),
    ensures
        parse_file_header(file_bytes(b)) == Ok::<Header, Error>(file_header(b)),
{
    let file = file_bytes(b);
    let h = file_header(b);
    lemma_layout(b);
    lemma_holds_at_concat(file, 0, header_wire(h), body_wire(b));
    assert(file.subrange(0, file.len() as int) =~= file);
    lemma_parse_header_at(file, 0, h);
}

/// A table of strings of a written bundle is read back as the pool that it
/// was written from.
proof fn lemma_pool_read_back(
    file: Seq<u8>,
    header: Header,
    table: TableHeader,
    strings: Seq<Seq<char>>,
    pool: Seq<Seq<char>>,
)
    requires
        file.len() <= u32::MAX,
        header.string_data.offset == HEADER_BYTES,
        table.count == pool.len(),
        holds_at(file, HEADER_BYTES as int, blob_wire(strings)),
        holds_at(file, table.offset as int, pool_table_wire(strings, pool)),
        strings.no_duplicates(),
        forall|i: int| 0 <= i < pool.len() ==> strings.contains(#[trigger] pool[i]),
        pool_wf(pool),
    ensures
        parse_pool_table(file, header, table) == Ok::<Seq<Seq<char>>, Error>(pool),
{
    let p = entry_parser::<String>(header);
    let start = table.offset as int;
    lemma_le_len();
    assert forall|i: int| 0 <= i < pool.len() implies #[trigger] p(file, start + i * 4) == Ok::<
        (Seq<char>, int),
        Error,
    >((pool[i], start + (i + 1) * 4)) by {
        let s = pool[i];
        let pos = start + i * 4;
        lemma_list_wire_at(offset_rule(strings), pool, i);
        lemma_pool_table_len(strings, pool.take(i));
        lemma_pool_table_len(strings, pool);
        lemma_holds_at_within(
            file,
            start,
            pool_table_wire(strings, pool),
            4 * i,
            offset_rule(strings)(s),
        );
        assert(strings.contains(s));
        let k = strings.index_of(s);
        lemma_list_wire_at(cstr_rule(), strings, k);
        lemma_list_wire_prefix(cstr_rule(), strings, k);
        lemma_holds_at_within(
            file,
            HEADER_BYTES as int,
            blob_wire(strings),
            blob_offset_at(strings, k),
            cstr_wire(s),
        );
        let rel = blob_offset(strings, s) as u32;
        lemma_parse_u32_at(file, pos, rel);
        lemma_parse_cstr_at(file, HEADER_BYTES + rel, s);
    }
    lemma_parse_list_fixed(p, file, start, pool, 4);
    lemma_unique_of_distinct(pool);
}

/// The table of definitions of a written bundle is read back as the
/// definitions that it was written from.
proof fn lemma_definitions_read_back(file: Seq<u8>, header: Header, b: BundleView)
    requires
        file.len() <= u32::MAX,
        writable(b),
        bundle_wf(b),
        header.definitions.offset == layout(b).definitions,
        header.definitions.count == b.definitions.len(),
        holds_at(file, layout(b).definitions, headers_wire(layout(b).payloads, b.definitions)),
        holds_at(file, layout(b).payloads, payloads_wire(b.definitions)),
    ensures
        parse_definition_table(file, header) == Ok::<Seq<DefinitionView>, Error>(b.definitions),
{
    let p = entry_parser::<Definition>(header);
    let defs = b.definitions;
    let rest = defs.drop_first();
    let table = layout(b).definitions;
    let start = layout(b).payloads;
    let headers = placed_headers(start, defs);
    lemma_layout(b);
    assert forall|i: int| 0 <= i < rest.len() implies #[trigger] p(
        file,
        (table + HEADER_SIZE) + i * 20,
    ) == Ok::<(DefinitionView, int), Error>((rest[i], (table + HEADER_SIZE) + (i + 1) * 20)) by {
        let slot = i + 1;
        let d = defs[slot];
        let pos = table + 20 * slot;
        let h = headers[slot];
        lemma_list_wire_at(header_rule(), headers, slot);
        lemma_header_list_len(headers.take(slot));
        lemma_header_list_len(headers);
        lemma_def_header_len(h);
        lemma_holds_at_within(file, table, headers_wire(start, defs), 20 * slot, def_header_wire(h));
        lemma_parse_def_header_at(file, pos, h);
        lemma_payload_pos(b, slot);
        lemma_list_wire_at(payload_rule(), defs, slot);
        lemma_holds_at_within(
            file,
            start,
            payloads_wire(defs),
            payloads_wire(defs.take(slot)).len() as int,
            d.payload(),
        );
        let size = d.payload().len() as u32;
        let offset = payload_pos(start, defs, slot) as u32;
        lemma_parse_payload_at(file, d, size, offset);
    }
    lemma_parse_list_fixed(p, file, table + HEADER_SIZE, rest, 20);
    assert(seq![DefinitionView::Undefined] + rest =~= defs);
}

/// The header of a written bundle says where the parts lie and how many
/// entries the tables have, and the file holds the body behind the header.
proof fn lemma_written_header(b: BundleView)
    requires
        writable(b),
    ensures
        file_bytes(b).len() == layout(b).end,
        holds_at(file_bytes(b), HEADER_BYTES as int, body_wire(b)),
        file_header(b).string_data.offset == HEADER_BYTES,
        file_header(b).cnames.offset == layout(b).cnames,
        file_header(b).cnames.count == b.cnames.len(),
        file_header(b).tweakdb_ids.offset == layout(b).tdb_ids,
        file_header(b).tweakdb_ids.count == b.tdb_ids.len(),
        file_header(b).resources.offset == layout(b).resources,
        file_header(b).resources.count == b.resources.len(),
        file_header(b).definitions.offset == layout(b).definitions,
        file_header(b).definitions.count == b.definitions.len(),
        file_header(b).strings.offset == layout(b).strings,
        file_header(b).strings.count == b.strings.len(),
{
    let file = file_bytes(b);
    let h = file_header(b);
    lemma_layout(b);
    lemma_holds_at_concat(file, 0, header_wire(h), body_wire(b));
    assert(file.subrange(0, file.len() as int) =~= file);
}

/// The tables of strings of a written bundle are read back as the pools.
proof fn lemma_written_pools(b: BundleView)
    requires
        bundle_wf(b),
        writable(b),
    ensures
        parse_pool_table(file_bytes(b), file_header(b), file_header(b).cnames) == Ok::<
            Seq<Seq<char>>,
            Error,
        >(b.cnames),
        parse_pool_table(file_bytes(b), file_header(b), file_header(b).tweakdb_ids) == Ok::<
            Seq<Seq<char>>,
            Error,
        >(b.tdb_ids),
        parse_pool_table(file_bytes(b), file_header(b), file_header(b).resources) == Ok::<
            Seq<Seq<char>>,
            Error,
        >(b.resources),
        parse_pool_table(file_bytes(b), file_header(b), file_header(b).strings) == Ok::<
            Seq<Seq<char>>,
            Error,
        >(b.strings),
{
    let file = file_bytes(b);
    let h = file_header(b);
    let strings = blob_strings(b);
    lemma_written_header(b);
    lemma_pools_in_blob(b);
    lemma_body_parts(file, b);
    lemma_pool_read_back(file, h, h.cnames, strings, b.cnames);
    lemma_pool_read_back(file, h, h.tweakdb_ids, strings, b.tdb_ids);
    lemma_pool_read_back(file, h, h.resources, strings, b.resources);
    lemma_pool_read_back(file, h, h.strings, strings, b.strings);
}

/// The table of definitions of a written bundle is read back as the
/// definitions.
proof fn lemma_written_definitions(b: BundleView)
    requires
        bundle_wf(b),
        writable(b),
    ensures
        parse_definition_table(file_bytes(b), file_header(b)) == Ok::<Seq<DefinitionView>, Error>(
            b.definitions,
        ),
{
    let file = file_bytes(b);
    let h = file_header(b);
    lemma_written_header(b);
    lemma_body_parts(file, b);
    lemma_definitions_read_back(file, h, b);
}

/// A well-formed bundle that can be written is read back from its bytes as
/// itself: its pools hold the same strings in the same order, and its
/// definitions are the same, with their instructions.
pub proof fn lemma_write_then_read(b: BundleView)
    requires
        bundle_wf(b),
        writable(b),
    ensures
        parse_bundle(file_bytes(b)) == Ok::<BundleView, Error>(b),
{
    lemma_header_read_back(b);
    lemma_written_pools(b);
    lemma_written_definitions(b);
}

/// Reading, writing and reading again gives what the first reading gave,
/// wherever what was read can be written at all.
pub proof fn lemma_round_trip(bytes: Seq<u8>)
    requires
        parse_bundle(bytes) is Ok,
        writable(parse_bundle(bytes)->Ok_0),
    ensures
        parse_bundle(file_bytes(parse_bundle(bytes)->Ok_0)) == parse_bundle(bytes),
{
    lemma_read_wf(bytes);
    lemma_write_then_read(parse_bundle(bytes)->Ok_0);
}

/// The header of a written bundle holds, for the string data and for each
/// table, the checksum of the bytes that the part takes in the file; and its
/// own checksum is that of the header with the placeholder in the checksum
/// field.
pub proof fn lemma_checksums(b: BundleView)
    requires
        writable(b),
    ensures
        ({
            let file = file_bytes(b);
            let h = file_header(b);
            &&& parse_file_header(file) == Ok::<Header, Error>(h)
            &&& h.string_data.hash == crc32(
                file.subrange(
                    h.string_data.offset as int,
                    h.string_data.offset + h.string_data.count,
                ),
            )
            &&& h.cnames.hash == crc32(
                file.subrange(h.cnames.offset as int, h.cnames.offset + 4 * h.cnames.count),
            )
            &&& h.tweakdb_ids.hash == crc32(
                file.subrange(
                    h.tweakdb_ids.offset as int,
                    h.tweakdb_ids.offset + 4 * h.tweakdb_ids.count,
                ),
            )
            &&& h.resources.hash == crc32(
                file.subrange(h.resources.offset as int, h.resources.offset + 4 * h.resources.count),
            )
            &&& h.definitions.hash == crc32(
                file.subrange(
                    h.definitions.offset as int,
                    h.definitions.offset + HEADER_SIZE * h.definitions.count,
                ),
            )
            &&& h.strings.hash == crc32(
                file.subrange(h.strings.offset as int, h.strings.offset + 4 * h.strings.count),
            )
            &&& h.crc == crc32(header_wire(Header { crc: UNSTAMPED, ..h }))
        }),
{
    let file = file_bytes(b);
    let h = file_header(b);
    let strings = blob_strings(b);
    lemma_layout(b);
    lemma_header_read_back(b);
    lemma_holds_at_concat(file, 0, header_wire(h), body_wire(b));
    assert(file.subrange(0, file.len() as int) =~= file);
    lemma_body_parts(file, b);
    lemma_pool_table_len(strings, b.cnames);
    lemma_pool_table_len(strings, b.tdb_ids);
    lemma_pool_table_len(strings, b.resources);
    lemma_pool_table_len(strings, b.strings);
    lemma_headers_len(layout(b).payloads, b.definitions);
}

/// A file that has four bytes and does not start with `R E D S` is refused
/// with the error for the magic number; one that starts with them, has
/// eight bytes and names another version than the supported one is refused
/// with the error for the version.
pub proof fn lemma_refused(bytes: Seq<u8>)
    ensures
        bytes.len() >= 4 && !(bytes[0] == 0x52 && bytes[1] == 0x45 && bytes[2] == 0x44 && bytes[3]
            == 0x53) ==> parse_bundle(bytes) == Err::<BundleView, Error>(
            crate::header::invalid_magic_error(),
        ),
        bytes.len() >= 8 && bytes[0] == 0x52 && bytes[1] == 0x45 && bytes[2] == 0x44 && bytes[3]
            == 0x53 && parse_u32(bytes, 4)->Ok_0.0 != SUPPORTED_VERSION ==> parse_bundle(bytes)
            == Err::<BundleView, Error>(crate::header::unsupported_version_error()),
{
    crate::header::lemma_magic_and_version(bytes);
}

/// The string data of a written bundle holds the strings of the four pools
/// and no others, each once: every one of them lies at its offset behind
/// the header, closed by a zero byte, and the same string of two pools has
/// one offset.
pub proof fn lemma_string_data_once(b: BundleView)
    requires
        writable(b),
    ensures
        blob_strings(b).no_duplicates(),
        forall|s: Seq<char>| blob_strings(b).contains(s) <==> all_strings(b).contains(s),
        forall|k: int|
            0 <= k < blob_strings(b).len() ==> holds_at(
                file_bytes(b),
                HEADER_BYTES + #[trigger] blob_offset_at(blob_strings(b), k),
                cstr_wire(blob_strings(b)[k]),
            ),
        forall|k: int|
            0 <= k < blob_strings(b).len() ==> blob_offset(
                blob_strings(b),
                #[trigger] blob_strings(b)[k],
            ) == blob_offset_at(blob_strings(b), k),
{
    let file = file_bytes(b);
    let strings = blob_strings(b);
    lemma_unique(all_strings(b));
    lemma_written_header(b);
    lemma_body_parts(file, b);
    assert forall|k: int| 0 <= k < strings.len() implies holds_at(
        file,
        HEADER_BYTES + #[trigger] blob_offset_at(strings, k),
        cstr_wire(strings[k]),
    ) by {
        lemma_list_wire_at(cstr_rule(), strings, k);
        lemma_holds_at_within(
            file,
            HEADER_BYTES as int,
            blob_wire(strings),
            blob_offset_at(strings, k),
            cstr_wire(strings[k]),
        );
    }
    assert forall|k: int| 0 <= k < strings.len() implies blob_offset(
        strings,
        #[trigger] strings[k],
    ) == blob_offset_at(strings, k) by {
    }
}

} // verus!
