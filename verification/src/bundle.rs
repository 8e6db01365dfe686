//! The bundle in memory, and the reader that makes it from bytes.
//!
//! A bundle is four pools of strings and a table of definitions. In the file
//! each pool is a table of 32-bit offsets into one region of zero-terminated
//! strings, and the definitions are a table of headers that point at the
//! payloads.

use core::marker::PhantomData;
use vstd::prelude::*;
use crate::codec::{parse_cstr, parse_u32, take_cstr, take_u32};
use crate::definition::{
    Class, ClassView, Definition, DefinitionView, Enum, EnumMember, EnumView, Field, FieldView,
    Function, FunctionView, HEADER_SIZE, Local, Parameter, parse_def_header, parse_payload,
    SourceFile, SourceFileView, take_def_header, Type,
};
use crate::error::Error;
use crate::header::{Header, parse_file_header, read_file_header, TableHeader};
use crate::index::{
    ClassIndex, CNameIndex, EnumIndex, EnumValueIndex, FieldIndex, FunctionIndex, group_index,
    LocalIndex, NzPoolIndex, ParameterIndex, ResourceIndex, SourceFileIndex, StringIndex,
    TweakDbIndex, TypeIndex, types,
};
use crate::list::{lemma_resume_done, lemma_resume_step, parse_list, resume, unique};
use crate::pool::StringPool;

verus! {

/// The error that a position which 32 bits cannot hold is answered with.
pub open spec fn range_error() -> Error {
    Error::BadInput { err: "offset out of range" }
}

/// The string that the table entry at `pos` points at: the entry is an
/// offset into the string data, and the string ends at the first zero byte.
pub open spec fn string_entry(
    bytes: Seq<u8>,
    header: Header,
    pos: int,
) -> Result<Seq<char>, Error> {
    match parse_u32(bytes, pos) {
        Err(e) => Err(e),
        Ok((rel, _)) => if header.string_data.offset + rel > u32::MAX {
            Err(range_error())
        } else {
            match parse_cstr(bytes, header.string_data.offset + rel) {
                Ok((s, _)) => Ok(s),
                Err(e) => Err(e),
            }
        },
    }
}

/// The definition whose header is the table entry at `pos`.
pub open spec fn definition_entry(bytes: Seq<u8>, header: Header, pos: int) -> Result<
    DefinitionView,
    Error,
> {
    match parse_def_header(bytes, pos) {
        Err(e) => Err(e),
        Ok((h, _)) => match parse_payload(h, bytes) {
            Ok((d, _)) => Ok(d),
            Err(e) => Err(e),
        },
    }
}

/// A value that a table of a bundle holds: a string or a definition.
pub trait BundleItem: Sized + View {
    /// The number of bytes that an entry of the table takes.
    spec fn entry_size() -> u32;

    /// The value whose table entry is at `pos`.
    spec fn parse_entry(bytes: Seq<u8>, header: Header, pos: int) -> Result<Self::V, Error>;

    /// The number of bytes that an entry of the table takes.
    fn entry_width() -> (n: u32)
        ensures
            n == Self::entry_size(),
            0 < n <= 0xFFFF,
    ;

    /// Decodes the value whose table entry is at `pos`.
    fn read_entry(bytes: &[u8], header: &Header, pos: u32) -> (r: Result<Self, Error>)
        ensures
            match Self::parse_entry(bytes@, *header, pos as int) {
                Ok(v) => r is Ok && r->Ok_0@ == v,
                Err(e) => r == Err::<Self, Error>(e),
            },
    ;
}

impl BundleItem for String {
    open spec fn entry_size() -> u32 {
        4
    }

    open spec fn parse_entry(bytes: Seq<u8>, header: Header, pos: int) -> Result<Seq<char>, Error> {
        string_entry(bytes, header, pos)
    }

    fn entry_width() -> (n: u32) {
        4
    }

    fn read_entry(bytes: &[u8], header: &Header, pos: u32) -> (r: Result<String, Error>) {
        let (rel, _) = take_u32(bytes, pos as usize)?;
        let target: u64 = header.string_data.offset as u64 + rel as u64;
        if target > 0xFFFF_FFFF {
            return Err(Error::BadInput { err: "offset out of range" });
        }
        let (text, _) = take_cstr(bytes, target as usize)?;
        Ok(text.to_owned())
    }
}

impl BundleItem for Definition {
    open spec fn entry_size() -> u32 {
        HEADER_SIZE
    }

    open spec fn parse_entry(bytes: Seq<u8>, header: Header, pos: int) -> Result<
        DefinitionView,
        Error,
    > {
        definition_entry(bytes, header, pos)
    }

    fn entry_width() -> (n: u32) {
        HEADER_SIZE
    }

    fn read_entry(bytes: &[u8], header: &Header, pos: u32) -> (r: Result<Definition, Error>) {
        let (h, _) = take_def_header(bytes, pos as usize)?;
        let (definition, _) = Definition::read_payload(bytes, &h)?;
        Ok(definition)
    }
}

/// The value with the given index in the table that starts at `table`. An
/// entry whose position 32 bits cannot hold is refused.
pub open spec fn item_at<Item: BundleItem>(
    bytes: Seq<u8>,
    header: Header,
    table: u32,
    index: u32,
) -> Result<Item::V, Error> {
    if table + index * Item::entry_size() > u32::MAX {
        Err(range_error())
    } else {
        Item::parse_entry(bytes, header, table + index * Item::entry_size())
    }
}

/// The rule by which the entries of a table are decoded one after the other.
pub open spec fn entry_parser<Item: BundleItem>(header: Header) -> spec_fn(Seq<u8>, int) -> Result<
    (Item::V, int),
    Error,
> {
    |bytes: Seq<u8>, pos: int|
        if pos > u32::MAX {
            Err(range_error())
        } else {
            match Item::parse_entry(bytes, header, pos) {
                Ok(v) => Ok((v, pos + Item::entry_size())),
                Err(e) => Err(e),
            }
        }
}

/// A bundle whose header has been read and checked, and whose tables are
/// read on demand.
#[derive(Debug)]
pub struct BundleReader<'i> {
    header: Header,
    contents: &'i [u8],
}

impl<'i> BundleReader<'i> {
    /// The header.
    pub closed spec fn spec_header(&self) -> Header {
        self.header
    }

    /// The bytes of the file.
    pub closed spec fn spec_contents(&self) -> Seq<u8> {
        self.contents@
    }

    /// Reads and checks the header of `bytes`. A file that does not start
    /// with the magic number, or is of another version than the supported
    /// one, is refused.
    pub fn new(bytes: &'i [u8]) -> (r: Result<Self, Error>)
        ensures
            match parse_file_header(bytes@) {
                Ok(h) => r is Ok && r->Ok_0.spec_header() == h && r->Ok_0.spec_contents() == bytes@,
                Err(e) => r is Err && r->Err_0 == e,
            },
    {
        let header = read_file_header(bytes)?;
        Ok(BundleReader { header, contents: bytes })
    }

    /// The header.
    pub fn header(&self) -> (h: &Header)
        ensures
            *h == self.spec_header(),
    {
        &self.header
    }

    /// The table of names.
    pub fn cnames(&self) -> (r: ItemReader<'_, 'i, String>)
        ensures
            r.spec_parent() == *self,
            r.spec_offset() == self.spec_header().cnames.offset,
            r.spec_count() == self.spec_header().cnames.count,
    {
        ItemReader::new(self, &self.header.cnames)
    }

    /// The table of tuning-database identifiers.
    pub fn tweakdb_ids(&self) -> (r: ItemReader<'_, 'i, String>)
        ensures
            r.spec_parent() == *self,
            r.spec_offset() == self.spec_header().tweakdb_ids.offset,
            r.spec_count() == self.spec_header().tweakdb_ids.count,
    {
        ItemReader::new(self, &self.header.tweakdb_ids)
    }

    /// The table of resource paths.
    pub fn resources(&self) -> (r: ItemReader<'_, 'i, String>)
        ensures
            r.spec_parent() == *self,
            r.spec_offset() == self.spec_header().resources.offset,
            r.spec_count() == self.spec_header().resources.count,
    {
        ItemReader::new(self, &self.header.resources)
    }

    /// The table of string literals.
    pub fn strings(&self) -> (r: ItemReader<'_, 'i, String>)
        ensures
            r.spec_parent() == *self,
            r.spec_offset() == self.spec_header().strings.offset,
            r.spec_count() == self.spec_header().strings.count,
    {
        ItemReader::new(self, &self.header.strings)
    }

    /// The table of definitions.
    pub fn definitions(&self) -> (r: ItemReader<'_, 'i, Definition>)
        ensures
            r.spec_parent() == *self,
            r.spec_offset() == self.spec_header().definitions.offset,
            r.spec_count() == self.spec_header().definitions.count,
    {
        ItemReader::new(self, &self.header.definitions)
    }
}

/// One table of a bundle, read entry by entry.
#[derive(Debug)]
pub struct ItemReader<'r, 'i, Item> {
    parent: &'r BundleReader<'i>,
    offset: u32,
    count: u32,
    phantom: PhantomData<Item>,
}

impl<'r, 'i, Item> ItemReader<'r, 'i, Item> {
    /// The bundle that the table belongs to.
    pub closed spec fn spec_parent(&self) -> BundleReader<'i> {
        *self.parent
    }

    /// Where the table starts.
    pub closed spec fn spec_offset(&self) -> u32 {
        self.offset
    }

    /// The number of entries that the table announces.
    pub closed spec fn spec_count(&self) -> u32 {
        self.count
    }

    /// The reader of the table that `table` describes.
    pub fn new(reader: &'r BundleReader<'i>, table: &TableHeader) -> (r: Self)
        ensures
            r.spec_parent() == *reader,
            r.spec_offset() == table.offset,
            r.spec_count() == table.count,
    {
        ItemReader {
            parent: reader,
            offset: table.offset,
            count: table.count,
            phantom: PhantomData,
        }
    }

    /// The number of entries that the table announces.
    pub fn len(&self) -> (n: u32)
        ensures
            n == self.spec_count(),
    {
        self.count
    }

    /// Decodes the value with the given index. The index is not held
    /// against the number of entries.
    pub fn get(&self, index: u32) -> (r: Result<Item, Error>) where Item: BundleItem
        ensures
            match item_at::<Item>(
                self.spec_parent().spec_contents(),
                self.spec_parent().spec_header(),
                self.spec_offset(),
                index,
            ) {
                Ok(v) => r is Ok && r->Ok_0@ == v,
                Err(e) => r == Err::<Item, Error>(e),
            },
    {
        let width: u32 = Item::entry_width();
        assert(index * width <= 0xFFFF_FFFF * 0xFFFF) by (nonlinear_arith)
            requires
                0 <= index <= 0xFFFF_FFFF,
                0 <= width <= 0xFFFF,
        ;
        let pos: u64 = self.offset as u64 + index as u64 * width as u64;
        if pos > 0xFFFF_FFFF {
            return Err(Error::BadInput { err: "offset out of range" });
        }
        Item::read_entry(self.parent.contents, &self.parent.header, pos as u32)
    }

    /// The entries of the table from the first on, one at a time.
    pub fn into_iter(self) -> (r: ItemIter<'r, 'i, Item>)
        ensures
            r.spec_reader() == self,
            r.spec_index() == 0,
    {
        ItemIter { reader: self, index: 0 }
    }
}

/// The entries of one table, one at a time. An entry that cannot be decoded
/// comes as an error; the entries behind it can still be asked for.
#[derive(Debug)]
pub struct ItemIter<'r, 'i, Item> {
    reader: ItemReader<'r, 'i, Item>,
    index: u32,
}

impl<'r, 'i, Item> ItemIter<'r, 'i, Item> {
    /// The table that is read.
    pub closed spec fn spec_reader(&self) -> ItemReader<'r, 'i, Item> {
        self.reader
    }

    /// The index of the entry that comes next.
    pub closed spec fn spec_index(&self) -> u32 {
        self.index
    }

    /// The next entry, or nothing when all entries that the table announces
    /// have been handed out.
    pub fn next(&mut self) -> (r: Option<Result<Item, Error>>) where Item: BundleItem
        ensures
            final(self).spec_reader() == old(self).spec_reader(),
            old(self).spec_index() >= old(self).spec_reader().spec_count() ==> r is None
                && final(self).spec_index() == old(self).spec_index(),
            old(self).spec_index() < old(self).spec_reader().spec_count() ==> r is Some
                && final(self).spec_index() == old(self).spec_index() + 1 && (match item_at::<Item>(
                old(self).spec_reader().spec_parent().spec_contents(),
                old(self).spec_reader().spec_parent().spec_header(),
                old(self).spec_reader().spec_offset(),
                old(self).spec_index(),
            ) {
                Ok(v) => r->Some_0 is Ok && r->Some_0->Ok_0@ == v,
                Err(e) => r->Some_0 == Err::<Item, Error>(e),
            }),
    {
        if self.index < self.reader.count {
            let result = self.reader.get(self.index);
            self.index += 1;
            Some(result)
        } else {
            None
        }
    }

    /// The number of entries that are left, as the lower and the upper bound
    /// of what `next` will hand out.
    pub fn size_hint(&self) -> (r: (usize, Option<usize>))
        ensures
            r.0 == self.spec_reader().spec_count() - self.spec_index()
                || self.spec_index() > self.spec_reader().spec_count() && r.0 == 0,
            r.1 == Some(r.0),
    {
        let remaining: usize = if self.index <= self.reader.count {
            (self.reader.count - self.index) as usize
        } else {
            0
        };
        (remaining, Some(remaining))
    }
}

/// What stands for a bundle in contracts: the strings of its four pools in
/// order, and its definitions.
pub struct BundleView {
    pub cnames: Seq<Seq<char>>,
    pub tdb_ids: Seq<Seq<char>>,
    pub resources: Seq<Seq<char>>,
    pub strings: Seq<Seq<char>>,
    pub definitions: Seq<DefinitionView>,
}

/// The pool that a table of strings makes: the strings in the order of the
/// table, each once.
pub open spec fn parse_pool_table(bytes: Seq<u8>, header: Header, table: TableHeader) -> Result<
    Seq<Seq<char>>,
    Error,
> {
    match parse_list(
        entry_parser::<String>(header),
        bytes,
        table.offset as int,
        table.count as nat,
    ) {
        Ok((items, _)) => Ok(unique(items)),
        Err(e) => Err(e),
    }
}

/// The definitions that the table of definitions makes: `Undefined` in
/// slot zero, whatever the table holds there, and behind it what the
/// entries from the second on announce.
pub open spec fn parse_definition_table(bytes: Seq<u8>, header: Header) -> Result<
    Seq<DefinitionView>,
    Error,
> {
    let table = header.definitions;
    if table.count == 0 {
        Ok(seq![DefinitionView::Undefined])
    } else {
        match parse_list(
            entry_parser::<Definition>(header),
            bytes,
            table.offset + HEADER_SIZE,
            (table.count - 1) as nat,
        ) {
            Ok((defs, _)) => Ok(seq![DefinitionView::Undefined] + defs),
            Err(e) => Err(e),
        }
    }
}

/// The bundle that the tables of a file make. The tables are read in the
/// order names, tuning-database identifiers, resources, strings,
/// definitions, and the first that cannot be read gives the error.
pub open spec fn parse_tables(bytes: Seq<u8>, header: Header) -> Result<BundleView, Error> {
    match parse_pool_table(bytes, header, header.cnames) {
        Err(e) => Err(e),
        Ok(cnames) => match parse_pool_table(bytes, header, header.tweakdb_ids) {
            Err(e) => Err(e),
            Ok(tdb_ids) => match parse_pool_table(bytes, header, header.resources) {
                Err(e) => Err(e),
                Ok(resources) => match parse_pool_table(bytes, header, header.strings) {
                    Err(e) => Err(e),
                    Ok(strings) => match parse_definition_table(bytes, header) {
                        Err(e) => Err(e),
                        Ok(definitions) => Ok(
                            BundleView { cnames, tdb_ids, resources, strings, definitions },
                        ),
                    },
                },
            },
        },
    }
}

/// The bundle that a file makes.
pub open spec fn parse_bundle(bytes: Seq<u8>) -> Result<BundleView, Error> {
    match parse_file_header(bytes) {
        Err(e) => Err(e),
        Ok(header) => parse_tables(bytes, header),
    }
}

/// What stands in contracts for the definitions of a vector.
pub open spec fn definition_views(s: Seq<Definition>) -> Seq<DefinitionView> {
    s.map_values(|d: Definition| d@)
}

/// Reads a whole table of strings into a pool.
fn read_pool<A>(reader: ItemReader<'_, '_, String>) -> (r: Result<StringPool<A>, Error>)
    ensures
        match parse_pool_table(
            reader.spec_parent().spec_contents(),
            reader.spec_parent().spec_header(),
            TableHeader { offset: reader.spec_offset(), count: reader.spec_count(), hash: 0 },
        ) {
            Ok(items) => r is Ok && r->Ok_0@ == items,
            Err(e) => r is Err && r->Err_0 == e,
        },
{
    let ghost bytes = reader.spec_parent().spec_contents();
    let ghost header = reader.spec_parent().spec_header();
    let ghost start = reader.spec_offset() as int;
    let count: u32 = reader.len();
    let mut pool: StringPool<A> = StringPool::new();
    let ghost mut items: Seq<Seq<char>> = Seq::empty();
    let mut i: u32 = 0;
    proof {
        assert(Seq::<Seq<char>>::empty() + parse_list(
            entry_parser::<String>(header),
            bytes,
            start,
            count as nat,
        )->Ok_0.0 =~= parse_list(
            entry_parser::<String>(header),
            bytes,
            start,
            count as nat,
        )->Ok_0.0);
    }
    while i < count
        invariant
            i <= count,
            bytes == reader.spec_parent().spec_contents(),
            header == reader.spec_parent().spec_header(),
            start == reader.spec_offset(),
            count == reader.spec_count(),
            items.len() == i,
            pool@ == unique(items),
            pool@.len() <= i,
            resume(
                items,
                parse_list(
                    entry_parser::<String>(header),
                    bytes,
                    start + 4 * i,
                    (count - i) as nat,
                ),
            ) == parse_list(entry_parser::<String>(header), bytes, start, count as nat),
        decreases count - i,
    {
        proof {
            lemma_resume_step(
                entry_parser::<String>(header),
                bytes,
                start + 4 * i,
                (count - i) as nat,
                items,
            );
        }
        let text = reader.get(i)?;
        proof {
            assert(items.push(text@).drop_last() =~= items);
            items = items.push(text@);
        }
        pool.add(text.as_str());
        i += 1;
    }
    proof {
        lemma_resume_done(entry_parser::<String>(header), bytes, start + 4 * i, items);
    }
    Ok(pool)
}

/// Reads the table of definitions.
fn read_definitions(reader: ItemReader<'_, '_, Definition>) -> (r: Result<Vec<Definition>, Error>)
    requires
        reader.spec_offset() == reader.spec_parent().spec_header().definitions.offset,
        reader.spec_count() == reader.spec_parent().spec_header().definitions.count,
    ensures
        match parse_definition_table(
            reader.spec_parent().spec_contents(),
            reader.spec_parent().spec_header(),
        ) {
            Ok(defs) => r is Ok && definition_views(r->Ok_0@) == defs,
            Err(e) => r is Err && r->Err_0 == e,
        },
        r matches Ok(defs) ==> 1 <= defs@.len() <= 0x1_0000_0000 && defs@[0] is Undefined,
{
    let ghost bytes = reader.spec_parent().spec_contents();
    let ghost header = reader.spec_parent().spec_header();
    let ghost start = reader.spec_offset() + HEADER_SIZE;
    let count: u32 = reader.len();
    let mut defs: Vec<Definition> = Vec::new();
    defs.push(Definition::Undefined);
    if count == 0 {
        return Ok(defs);
    }
    let ghost mut items: Seq<DefinitionView> = Seq::empty();
    let mut i: u32 = 1;
    proof {
        assert(Seq::<DefinitionView>::empty() + parse_list(
            entry_parser::<Definition>(header),
            bytes,
            start,
            (count - 1) as nat,
        )->Ok_0.0 =~= parse_list(
            entry_parser::<Definition>(header),
            bytes,
            start,
            (count - 1) as nat,
        )->Ok_0.0);
    }
    while i < count
        invariant
            1 <= i <= count,
            bytes == reader.spec_parent().spec_contents(),
            header == reader.spec_parent().spec_header(),
            start == reader.spec_offset() + HEADER_SIZE,
            count == reader.spec_count(),
            count == header.definitions.count,
            reader.spec_offset() == header.definitions.offset,
            items.len() == i - 1,
            defs@.len() == i,
            defs@[0] is Undefined,
            definition_views(defs@) == seq![DefinitionView::Undefined] + items,
            resume(
                items,
                parse_list(
                    entry_parser::<Definition>(header),
                    bytes,
                    start + HEADER_SIZE * (i - 1),
                    (count - i) as nat,
                ),
            ) == parse_list(entry_parser::<Definition>(header), bytes, start, (count - 1) as nat),
        decreases count - i,
    {
        proof {
            lemma_resume_step(
                entry_parser::<Definition>(header),
                bytes,
                start + HEADER_SIZE * (i - 1),
                (count - i) as nat,
                items,
            );
        }
        let ghost before = defs@;
        let definition = reader.get(i)?;
        defs.push(definition);
        proof {
            assert(seq![DefinitionView::Undefined] + items.push(definition@) =~= (
                seq![DefinitionView::Undefined] + items).push(definition@));
            items = items.push(definition@);
        }
        i += 1;
    }
    proof {
        lemma_resume_done(
            entry_parser::<Definition>(header),
            bytes,
            start + HEADER_SIZE * (i - 1),
            items,
        );
    }
    Ok(defs)
}

/// The definitions of a bundle. Slot zero is `Undefined`, and there are no
/// more slots than 32 bits can number.
#[derive(Debug)]
struct DefinitionTable {
    items: Vec<Definition>,
}

impl DefinitionTable {
    #[verifier::type_invariant]
    closed spec fn sentinel(self) -> bool {
        &&& 1 <= self.items@.len() <= 0x1_0000_0000
        &&& self.items@[0] is Undefined
    }

    /// The table that holds `items`.
    fn new(items: Vec<Definition>) -> (table: Self)
        requires
            1 <= items@.len() <= 0x1_0000_0000,
            items@[0] is Undefined,
        ensures
            table.items == items,
    {
        DefinitionTable { items }
    }

    /// The definitions in the order of their slots.
    fn items(&self) -> (items: &Vec<Definition>)
        ensures
            *items == self.items,
            1 <= items@.len() <= 0x1_0000_0000,
            items@[0] is Undefined,
    {
        proof {
            use_type_invariant(self);
        }
        &self.items
    }

    /// The definition in a slot other than the first, to be changed in
    /// place.
    fn slot_mut(&mut self, at: usize) -> (slot: &mut Definition)
        requires
            0 < at < old(self).items@.len(),
        ensures
            *slot == old(self).items@[at as int],
            final(self).items@ == old(self).items@.update(at as int, *final(slot)),
    {
        proof {
            use_type_invariant(&*self);
        }
        &mut self.items[at]
    }

    /// Adds a definition in a new slot behind the others.
    fn push(&mut self, definition: Definition)
        requires
            old(self).items@.len() <= u32::MAX,
        ensures
            final(self).items@ == old(self).items@.push(definition),
    {
        proof {
            use_type_invariant(&*self);
        }
        let mut items: Vec<Definition> = Vec::new();
        items.push(Definition::Undefined);
        core::mem::swap(&mut self.items, &mut items);
        items.push(definition);
        self.items = items;
    }
}

/// A bundle in memory: four pools of strings and the definitions. Slot zero
/// of the definitions is `Undefined`.
#[derive(Debug)]
pub struct ScriptBundle {
    cnames: StringPool<types::CName>,
    tdb_ids: StringPool<types::TweakDbId>,
    resources: StringPool<types::Resource>,
    strings: StringPool<types::Text>,
    definitions: DefinitionTable,
}

impl View for ScriptBundle {
    type V = BundleView;

    closed spec fn view(&self) -> BundleView {
        BundleView {
            cnames: self.cnames@,
            tdb_ids: self.tdb_ids@,
            resources: self.resources@,
            strings: self.strings@,
            definitions: definition_views(self.definitions.items@),
        }
    }
}

impl BundleView {
    /// Whether slot zero of the definitions is `Undefined`, and there are no
    /// more definitions than 32 bits can number.
    pub open spec fn has_sentinel(self) -> bool {
        &&& 1 <= self.definitions.len() <= 0x1_0000_0000
        &&& self.definitions[0] is Undefined
    }
}

impl ScriptBundle {
    /// Reads a bundle from the bytes of a file.
    pub fn from_bytes(bytes: &[u8]) -> (r: Result<Self, Error>)
        ensures
            match parse_bundle(bytes@) {
                Ok(v) => r is Ok && r->Ok_0@ == v,
                Err(e) => r is Err && r->Err_0 == e,
            },
            r matches Ok(bundle) ==> bundle@.has_sentinel(),
    {
        let reader = BundleReader::new(bytes)?;
        Self::from_reader(&reader)
    }

    /// Reads all tables of a bundle whose header has been read. Slot zero of
    /// the definitions becomes `Undefined`, whatever the file holds there.
    pub fn from_reader(reader: &BundleReader<'_>) -> (r: Result<Self, Error>)
        ensures
            match parse_tables(reader.spec_contents(), reader.spec_header()) {
                Ok(v) => r is Ok && r->Ok_0@ == v,
                Err(e) => r is Err && r->Err_0 == e,
            },
            r matches Ok(bundle) ==> bundle@.has_sentinel(),
    {
        let cnames = read_pool(reader.cnames())?;
        let tdb_ids = read_pool(reader.tweakdb_ids())?;
        let resources = read_pool(reader.resources())?;
        let strings = read_pool(reader.strings())?;
        let definitions = read_definitions(reader.definitions())?;
        Ok(
            ScriptBundle {
                cnames,
                tdb_ids,
                resources,
                strings,
                definitions: DefinitionTable::new(definitions),
            },
        )
    }
}

impl ScriptBundle {
    /// A bundle with empty pools and no definition but `Undefined`.
    pub fn new() -> (bundle: Self)
        ensures
            bundle@ == empty_bundle(),
    {
        let mut definitions: Vec<Definition> = Vec::new();
        definitions.push(Definition::Undefined);
        proof {
            assert(definition_views(definitions@) =~= seq![DefinitionView::Undefined]);
        }
        ScriptBundle {
            cnames: StringPool::new(),
            tdb_ids: StringPool::new(),
            resources: StringPool::new(),
            strings: StringPool::new(),
            definitions: DefinitionTable::new(definitions),
        }
    }

    /// The bundle itself: it owns all that it holds.
    pub fn into_owned(self) -> (bundle: Self)
        ensures
            bundle@ == self@,
    {
        self
    }

    /// The pool of names.
    pub fn cnames(&self) -> (pool: &StringPool<types::CName>)
        ensures
            pool@ == self@.cnames,
    {
        &self.cnames
    }

    /// The pool of tuning-database identifiers.
    pub fn tdb_ids(&self) -> (pool: &StringPool<types::TweakDbId>)
        ensures
            pool@ == self@.tdb_ids,
    {
        &self.tdb_ids
    }

    /// The pool of resource paths.
    pub fn resources(&self) -> (pool: &StringPool<types::Resource>)
        ensures
            pool@ == self@.resources,
    {
        &self.resources
    }

    /// The pool of string literals.
    pub fn strings(&self) -> (pool: &StringPool<types::Text>)
        ensures
            pool@ == self@.strings,
    {
        &self.strings
    }

    /// The pool of names, to be added to.
    pub fn cnames_mut(&mut self) -> (pool: &mut StringPool<types::CName>)
        ensures
            pool@ == old(self)@.cnames,
            final(self)@ == (BundleView { cnames: final(pool)@, ..old(self)@ }),
    {
        &mut self.cnames
    }

    /// The pool of tuning-database identifiers, to be added to.
    pub fn tdb_ids_mut(&mut self) -> (pool: &mut StringPool<types::TweakDbId>)
        ensures
            pool@ == old(self)@.tdb_ids,
            final(self)@ == (BundleView { tdb_ids: final(pool)@, ..old(self)@ }),
    {
        &mut self.tdb_ids
    }

    /// The pool of resource paths, to be added to.
    pub fn resources_mut(&mut self) -> (pool: &mut StringPool<types::Resource>)
        ensures
            pool@ == old(self)@.resources,
            final(self)@ == (BundleView { resources: final(pool)@, ..old(self)@ }),
    {
        &mut self.resources
    }

    /// The pool of string literals, to be added to.
    pub fn strings_mut(&mut self) -> (pool: &mut StringPool<types::Text>)
        ensures
            pool@ == old(self)@.strings,
            final(self)@ == (BundleView { strings: final(pool)@, ..old(self)@ }),
    {
        &mut self.strings
    }

    /// What `index` names, if it names anything of its kind: a string of the
    /// pool that the index belongs to, or the definition in its slot where
    /// that is of the kind that the index is for.
    pub fn get_item<I: PoolItem>(&self, index: I) -> (r: Option<&I::Output>)
        ensures
            match index.lookup(self@) {
                Some(v) => r is Some && r->Some_0@ == v,
                None => r is None,
            },
    {
        index.get(self)
    }

    /// What `index` names, to be changed in place.
    pub fn get_item_mut<I: PoolItemMut>(&mut self, index: I) -> (r: Option<&mut I::Output>)
        ensures
            match index.lookup(old(self)@) {
                Some(v) => r is Some && (*r->Some_0)@ == v && final(self)@ == index.replaced(
                    old(self)@,
                    (*final(r->Some_0))@,
                ),
                None => r is None && final(self)@ == old(self)@,
            },
    {
        index.get_mut(self)
    }

    /// What `index` names, for an index that names something of its kind.
    pub fn index<I: PoolItem>(&self, index: I) -> (r: &I::Output)
        requires
            index.lookup(self@) is Some,
        ensures
            r@ == index.lookup(self@)->Some_0,
    {
        match index.get(self) {
            Some(value) => value,
            None => vstd::pervasive::unreached(),
        }
    }

    /// What `index` names, to be changed in place, for an index that names
    /// something of its kind.
    pub fn index_mut<I: PoolItemMut>(&mut self, index: I) -> (r: &mut I::Output)
        requires
            index.lookup(old(self)@) is Some,
        ensures
            (*r)@ == index.lookup(old(self)@)->Some_0,
            final(self)@ == index.replaced(old(self)@, (*final(r))@),
    {
        match index.get_mut(self) {
            Some(value) => value,
            None => vstd::pervasive::unreached(),
        }
    }

    /// The definitions in the order of their slots. The first is
    /// `Undefined`.
    pub fn definitions(&self) -> (defs: &Vec<Definition>)
        ensures
            definition_views(defs@) == self@.definitions,
            self@.has_sentinel(),
    {
        let defs = self.definitions.items();
        defs
    }

    /// Adds a definition in a new slot behind the others and hands back the
    /// handle of that slot.
    pub fn define<A: DefinitionIndex>(&mut self, def: A) -> (index: NzPoolIndex<A::Index>)
        requires
            old(self)@.definitions.len() <= u32::MAX,
        ensures
            final(self)@ == (BundleView {
                definitions: old(self)@.definitions.push(A::wrap(def@)),
                ..old(self)@
            }),
            index@ == old(self)@.definitions.len(),
    {
        broadcast use group_index;

        let ghost before = self.definitions.items@;
        let at: u32 = self.definitions.items().len() as u32;
        let definition = def.into_definition();
        self.definitions.push(definition);
        proof {
            assert(definition_views(self.definitions.items@) =~= definition_views(before).push(
                definition@,
            ));
        }
        match NzPoolIndex::new(at) {
            Some(index) => index,
            None => vstd::pervasive::unreached(),
        }
    }
}

impl ScriptBundle {
    /// Adds a definition like `define`, unless there are as many definitions
    /// as 32 bits can number and more: then nothing is added.
    pub fn try_define<A: DefinitionIndex>(&mut self, def: A) -> (r: Option<NzPoolIndex<A::Index>>)
        ensures
            match r {
                Some(index) => old(self)@.definitions.len() <= u32::MAX && final(self)@ == (
                BundleView {
                    definitions: old(self)@.definitions.push(A::wrap(def@)),
                    ..old(self)@
                }) && index@ == old(self)@.definitions.len(),
                None => old(self)@.definitions.len() > u32::MAX && final(self)@ == old(self)@,
            },
    {
        if self.definitions.items().len() <= 0xFFFF_FFFF {
            Some(self.define(def))
        } else {
            None
        }
    }
}

impl Default for ScriptBundle {
    fn default() -> (bundle: Self)
        ensures
            bundle@ == empty_bundle(),
    {
        ScriptBundle::new()
    }
}

/// What stands for the bundle with empty pools and no definition but
/// `Undefined`.
pub open spec fn empty_bundle() -> BundleView {
    BundleView {
        cnames: Seq::empty(),
        tdb_ids: Seq::empty(),
        resources: Seq::empty(),
        strings: Seq::empty(),
        definitions: seq![DefinitionView::Undefined],
    }
}

/// A definition of one kind, which can be added to a bundle.
pub trait DefinitionIndex: Sized + View {
    /// The marker of the handles that name definitions of this kind.
    type Index;

    /// The definition that a value of this kind is.
    spec fn wrap(v: Self::V) -> DefinitionView;

    /// The definition that the value is.
    fn into_definition(self) -> (d: Definition)
        ensures
            d@ == Self::wrap(self@),
    ;
}

/// A typed handle that names something in a bundle.
pub trait PoolItem: Sized {
    /// What the handle names.
    type Output: ?Sized + View;

    /// What the handle names in `bundle`, if it names anything there.
    spec fn lookup(self, bundle: BundleView) -> Option<<Self::Output as View>::V>;

    /// What the handle names in `bundle`, if it names anything there.
    fn get<'a>(self, bundle: &'a ScriptBundle) -> (r: Option<&'a Self::Output>)
        ensures
            match self.lookup(bundle@) {
                Some(v) => r is Some && r->Some_0@ == v,
                None => r is None,
            },
    ;
}

/// A typed handle that names a definition, which can be changed in place.
pub trait PoolItemMut: PoolItem {
    /// `bundle` with what the handle names replaced by `v`.
    spec fn replaced(self, bundle: BundleView, v: <Self::Output as View>::V) -> BundleView;

    /// What the handle names in `bundle`, to be changed in place.
    fn get_mut<'a>(self, bundle: &'a mut ScriptBundle) -> (r: Option<&'a mut Self::Output>)
        ensures
            match self.lookup(old(bundle)@) {
                Some(v) => r is Some && (*r->Some_0)@ == v && final(bundle)@ == self.replaced(
                    old(bundle)@,
                    (*final(r->Some_0))@,
                ),
                None => r is None && final(bundle)@ == old(bundle)@,
            },
    ;
}

impl PoolItem for CNameIndex {
    type Output = str;

    open spec fn lookup(self, bundle: BundleView) -> Option<Seq<char>> {
        if self@ < bundle.cnames.len() {
            Some(bundle.cnames[self@ as int])
        } else {
            None
        }
    }

    fn get<'a>(self, bundle: &'a ScriptBundle) -> (r: Option<&'a str>) {
        bundle.cnames.get(self)
    }
}

impl PoolItem for TweakDbIndex {
    type Output = str;

    open spec fn lookup(self, bundle: BundleView) -> Option<Seq<char>> {
        if self@ < bundle.tdb_ids.len() {
            Some(bundle.tdb_ids[self@ as int])
        } else {
            None
        }
    }

    fn get<'a>(self, bundle: &'a ScriptBundle) -> (r: Option<&'a str>) {
        bundle.tdb_ids.get(self)
    }
}

impl PoolItem for ResourceIndex {
    type Output = str;

    open spec fn lookup(self, bundle: BundleView) -> Option<Seq<char>> {
        if self@ < bundle.resources.len() {
            Some(bundle.resources[self@ as int])
        } else {
            None
        }
    }

    fn get<'a>(self, bundle: &'a ScriptBundle) -> (r: Option<&'a str>) {
        bundle.resources.get(self)
    }
}

impl PoolItem for StringIndex {
    type Output = str;

    open spec fn lookup(self, bundle: BundleView) -> Option<Seq<char>> {
        if self@ < bundle.strings.len() {
            Some(bundle.strings[self@ as int])
        } else {
            None
        }
    }

    fn get<'a>(self, bundle: &'a ScriptBundle) -> (r: Option<&'a str>) {
        bundle.strings.get(self)
    }
}

impl PoolItem for TypeIndex {
    type Output = Type;

    open spec fn lookup(self, bundle: BundleView) -> Option<Type> {
        if self@ < bundle.definitions.len() {
            match bundle.definitions[self@ as int] {
                DefinitionView::Type(v) => Some(v),
                _ => None,
            }
        } else {
            None
        }
    }

    fn get<'a>(self, bundle: &'a ScriptBundle) -> (r: Option<&'a Type>) {
        let at: usize = self.value() as usize;
        let defs = bundle.definitions.items();
        if at < defs.len() {
            match &defs[at] {
                Definition::Type(v) => Some(v),
                _ => None,
            }
        } else {
            None
        }
    }
}

impl PoolItemMut for TypeIndex {
    open spec fn replaced(self, bundle: BundleView, v: Type) -> BundleView {
        BundleView {
            definitions: bundle.definitions.update(self@ as int, DefinitionView::Type(v)),
            ..bundle
        }
    }

    fn get_mut<'a>(self, bundle: &'a mut ScriptBundle) -> (r: Option<&'a mut Type>) {
        let at: usize = self.value() as usize;
        if at < bundle.definitions.items().len() {
            let ghost before = bundle.definitions.items@;
            proof {
                assert(before.update(at as int, before[at as int]) =~= before);
            }
            let slot = bundle.definitions.slot_mut(at);
            match slot {
                Definition::Type(v) => {
                    proof {
                        assert(definition_views(
                            before.update(at as int, Definition::Type(*final(v))),
                        ) =~= definition_views(before).update(
                            at as int,
                            DefinitionView::Type((*final(v))@),
                        ));
                    }
                    Some(v)
                },
                _ => None,
            }
        } else {
            None
        }
    }
}

impl DefinitionIndex for Type {
    type Index = types::Type;

    open spec fn wrap(v: Type) -> DefinitionView {
        DefinitionView::Type(v)
    }

    fn into_definition(self) -> (d: Definition) {
        Definition::Type(self)
    }
}

impl PoolItem for ClassIndex {
    type Output = Class;

    open spec fn lookup(self, bundle: BundleView) -> Option<ClassView> {
        if self@ < bundle.definitions.len() {
            match bundle.definitions[self@ as int] {
                DefinitionView::Class(v) => Some(v),
                _ => None,
            }
        } else {
            None
        }
    }

    fn get<'a>(self, bundle: &'a ScriptBundle) -> (r: Option<&'a Class>) {
        let at: usize = self.value() as usize;
        let defs = bundle.definitions.items();
        if at < defs.len() {
            match &defs[at] {
                Definition::Class(v) => Some(v),
                _ => None,
            }
        } else {
            None
        }
    }
}

impl PoolItemMut for ClassIndex {
    open spec fn replaced(self, bundle: BundleView, v: ClassView) -> BundleView {
        BundleView {
            definitions: bundle.definitions.update(self@ as int, DefinitionView::Class(v)),
            ..bundle
        }
    }

    fn get_mut<'a>(self, bundle: &'a mut ScriptBundle) -> (r: Option<&'a mut Class>) {
        let at: usize = self.value() as usize;
        if at < bundle.definitions.items().len() {
            let ghost before = bundle.definitions.items@;
            proof {
                assert(before.update(at as int, before[at as int]) =~= before);
            }
            let slot = bundle.definitions.slot_mut(at);
            match slot {
                Definition::Class(v) => {
                    proof {
                        assert(definition_views(
                            before.update(at as int, Definition::Class(*final(v))),
                        ) =~= definition_views(before).update(
                            at as int,
                            DefinitionView::Class((*final(v))@),
                        ));
                    }
                    Some(v)
                },
                _ => None,
            }
        } else {
            None
        }
    }
}

impl DefinitionIndex for Class {
    type Index = types::Class;

    open spec fn wrap(v: ClassView) -> DefinitionView {
        DefinitionView::Class(v)
    }

    fn into_definition(self) -> (d: Definition) {
        Definition::Class(self)
    }
}

impl PoolItem for EnumValueIndex {
    type Output = EnumMember;

    open spec fn lookup(self, bundle: BundleView) -> Option<EnumMember> {
        if self@ < bundle.definitions.len() {
            match bundle.definitions[self@ as int] {
                DefinitionView::EnumMember(v) => Some(v),
                _ => None,
            }
        } else {
            None
        }
    }

    fn get<'a>(self, bundle: &'a ScriptBundle) -> (r: Option<&'a EnumMember>) {
        let at: usize = self.value() as usize;
        let defs = bundle.definitions.items();
        if at < defs.len() {
            match &defs[at] {
                Definition::EnumMember(v) => Some(v),
                _ => None,
            }
        } else {
            None
        }
    }
}

impl PoolItemMut for EnumValueIndex {
    open spec fn replaced(self, bundle: BundleView, v: EnumMember) -> BundleView {
        BundleView {
            definitions: bundle.definitions.update(self@ as int, DefinitionView::EnumMember(v)),
            ..bundle
        }
    }

    fn get_mut<'a>(self, bundle: &'a mut ScriptBundle) -> (r: Option<&'a mut EnumMember>) {
        let at: usize = self.value() as usize;
        if at < bundle.definitions.items().len() {
            let ghost before = bundle.definitions.items@;
            proof {
                assert(before.update(at as int, before[at as int]) =~= before);
            }
            let slot = bundle.definitions.slot_mut(at);
            match slot {
                Definition::EnumMember(v) => {
                    proof {
                        assert(definition_views(
                            before.update(at as int, Definition::EnumMember(*final(v))),
                        ) =~= definition_views(before).update(
                            at as int,
                            DefinitionView::EnumMember((*final(v))@),
                        ));
                    }
                    Some(v)
                },
                _ => None,
            }
        } else {
            None
        }
    }
}

impl DefinitionIndex for EnumMember {
    type Index = types::EnumValue;

    open spec fn wrap(v: EnumMember) -> DefinitionView {
        DefinitionView::EnumMember(v)
    }

    fn into_definition(self) -> (d: Definition) {
        Definition::EnumMember(self)
    }
}

impl PoolItem for EnumIndex {
    type Output = Enum;

    open spec fn lookup(self, bundle: BundleView) -> Option<EnumView> {
        if self@ < bundle.definitions.len() {
            match bundle.definitions[self@ as int] {
                DefinitionView::Enum(v) => Some(v),
                _ => None,
            }
        } else {
            None
        }
    }

    fn get<'a>(self, bundle: &'a ScriptBundle) -> (r: Option<&'a Enum>) {
        let at: usize = self.value() as usize;
        let defs = bundle.definitions.items();
        if at < defs.len() {
            match &defs[at] {
                Definition::Enum(v) => Some(v),
                _ => None,
            }
        } else {
            None
        }
    }
}

impl PoolItemMut for EnumIndex {
    open spec fn replaced(self, bundle: BundleView, v: EnumView) -> BundleView {
        BundleView {
            definitions: bundle.definitions.update(self@ as int, DefinitionView::Enum(v)),
            ..bundle
        }
    }

    fn get_mut<'a>(self, bundle: &'a mut ScriptBundle) -> (r: Option<&'a mut Enum>) {
        let at: usize = self.value() as usize;
        if at < bundle.definitions.items().len() {
            let ghost before = bundle.definitions.items@;
            proof {
                assert(before.update(at as int, before[at as int]) =~= before);
            }
            let slot = bundle.definitions.slot_mut(at);
            match slot {
                Definition::Enum(v) => {
                    proof {
                        assert(definition_views(
                            before.update(at as int, Definition::Enum(*final(v))),
                        ) =~= definition_views(before).update(
                            at as int,
                            DefinitionView::Enum((*final(v))@),
                        ));
                    }
                    Some(v)
                },
                _ => None,
            }
        } else {
            None
        }
    }
}

impl DefinitionIndex for Enum {
    type Index = types::Enum;

    open spec fn wrap(v: EnumView) -> DefinitionView {
        DefinitionView::Enum(v)
    }

    fn into_definition(self) -> (d: Definition) {
        Definition::Enum(self)
    }
}

impl PoolItem for FunctionIndex {
    type Output = Function;

    open spec fn lookup(self, bundle: BundleView) -> Option<FunctionView> {
        if self@ < bundle.definitions.len() {
            match bundle.definitions[self@ as int] {
                DefinitionView::Function(v) => Some(v),
                _ => None,
            }
        } else {
            None
        }
    }

    fn get<'a>(self, bundle: &'a ScriptBundle) -> (r: Option<&'a Function>) {
        let at: usize = self.value() as usize;
        let defs = bundle.definitions.items();
        if at < defs.len() {
            match &defs[at] {
                Definition::Function(v) => Some(v),
                _ => None,
            }
        } else {
            None
        }
    }
}

impl PoolItemMut for FunctionIndex {
    open spec fn replaced(self, bundle: BundleView, v: FunctionView) -> BundleView {
        BundleView {
            definitions: bundle.definitions.update(self@ as int, DefinitionView::Function(v)),
            ..bundle
        }
    }

    fn get_mut<'a>(self, bundle: &'a mut ScriptBundle) -> (r: Option<&'a mut Function>) {
        let at: usize = self.value() as usize;
        if at < bundle.definitions.items().len() {
            let ghost before = bundle.definitions.items@;
            proof {
                assert(before.update(at as int, before[at as int]) =~= before);
            }
            let slot = bundle.definitions.slot_mut(at);
            match slot {
                Definition::Function(v) => {
                    proof {
                        assert(definition_views(
                            before.update(at as int, Definition::Function(*final(v))),
                        ) =~= definition_views(before).update(
                            at as int,
                            DefinitionView::Function((*final(v))@),
                        ));
                    }
                    Some(v)
                },
                _ => None,
            }
        } else {
            None
        }
    }
}

impl DefinitionIndex for Function {
    type Index = types::Function;

    open spec fn wrap(v: FunctionView) -> DefinitionView {
        DefinitionView::Function(v)
    }

    fn into_definition(self) -> (d: Definition) {
        Definition::Function(self)
    }
}

impl PoolItem for ParameterIndex {
    type Output = Parameter;

    open spec fn lookup(self, bundle: BundleView) -> Option<Parameter> {
        if self@ < bundle.definitions.len() {
            match bundle.definitions[self@ as int] {
                DefinitionView::Parameter(v) => Some(v),
                _ => None,
            }
        } else {
            None
        }
    }

    fn get<'a>(self, bundle: &'a ScriptBundle) -> (r: Option<&'a Parameter>) {
        let at: usize = self.value() as usize;
        let defs = bundle.definitions.items();
        if at < defs.len() {
            match &defs[at] {
                Definition::Parameter(v) => Some(v),
                _ => None,
            }
        } else {
            None
        }
    }
}

impl PoolItemMut for ParameterIndex {
    open spec fn replaced(self, bundle: BundleView, v: Parameter) -> BundleView {
        BundleView {
            definitions: bundle.definitions.update(self@ as int, DefinitionView::Parameter(v)),
            ..bundle
        }
    }

    fn get_mut<'a>(self, bundle: &'a mut ScriptBundle) -> (r: Option<&'a mut Parameter>) {
        let at: usize = self.value() as usize;
        if at < bundle.definitions.items().len() {
            let ghost before = bundle.definitions.items@;
            proof {
                assert(before.update(at as int, before[at as int]) =~= before);
            }
            let slot = bundle.definitions.slot_mut(at);
            match slot {
                Definition::Parameter(v) => {
                    proof {
                        assert(definition_views(
                            before.update(at as int, Definition::Parameter(*final(v))),
                        ) =~= definition_views(before).update(
                            at as int,
                            DefinitionView::Parameter((*final(v))@),
                        ));
                    }
                    Some(v)
                },
                _ => None,
            }
        } else {
            None
        }
    }
}

impl DefinitionIndex for Parameter {
    type Index = types::Parameter;

    open spec fn wrap(v: Parameter) -> DefinitionView {
        DefinitionView::Parameter(v)
    }

    fn into_definition(self) -> (d: Definition) {
        Definition::Parameter(self)
    }
}

impl PoolItem for LocalIndex {
    type Output = Local;

    open spec fn lookup(self, bundle: BundleView) -> Option<Local> {
        if self@ < bundle.definitions.len() {
            match bundle.definitions[self@ as int] {
                DefinitionView::Local(v) => Some(v),
                _ => None,
            }
        } else {
            None
        }
    }

    fn get<'a>(self, bundle: &'a ScriptBundle) -> (r: Option<&'a Local>) {
        let at: usize = self.value() as usize;
        let defs = bundle.definitions.items();
        if at < defs.len() {
            match &defs[at] {
                Definition::Local(v) => Some(v),
                _ => None,
            }
        } else {
            None
        }
    }
}

impl PoolItemMut for LocalIndex {
    open spec fn replaced(self, bundle: BundleView, v: Local) -> BundleView {
        BundleView {
            definitions: bundle.definitions.update(self@ as int, DefinitionView::Local(v)),
            ..bundle
        }
    }

    fn get_mut<'a>(self, bundle: &'a mut ScriptBundle) -> (r: Option<&'a mut Local>) {
        let at: usize = self.value() as usize;
        if at < bundle.definitions.items().len() {
            let ghost before = bundle.definitions.items@;
            proof {
                assert(before.update(at as int, before[at as int]) =~= before);
            }
            let slot = bundle.definitions.slot_mut(at);
            match slot {
                Definition::Local(v) => {
                    proof {
                        assert(definition_views(
                            before.update(at as int, Definition::Local(*final(v))),
                        ) =~= definition_views(before).update(
                            at as int,
                            DefinitionView::Local((*final(v))@),
                        ));
                    }
                    Some(v)
                },
                _ => None,
            }
        } else {
            None
        }
    }
}

impl DefinitionIndex for Local {
    type Index = types::Local;

    open spec fn wrap(v: Local) -> DefinitionView {
        DefinitionView::Local(v)
    }

    fn into_definition(self) -> (d: Definition) {
        Definition::Local(self)
    }
}

impl PoolItem for FieldIndex {
    type Output = Field;

    open spec fn lookup(self, bundle: BundleView) -> Option<FieldView> {
        if self@ < bundle.definitions.len() {
            match bundle.definitions[self@ as int] {
                DefinitionView::Field(v) => Some(v),
                _ => None,
            }
        } else {
            None
        }
    }

    fn get<'a>(self, bundle: &'a ScriptBundle) -> (r: Option<&'a Field>) {
        let at: usize = self.value() as usize;
        let defs = bundle.definitions.items();
        if at < defs.len() {
            match &defs[at] {
                Definition::Field(v) => Some(v),
                _ => None,
            }
        } else {
            None
        }
    }
}

impl PoolItemMut for FieldIndex {
    open spec fn replaced(self, bundle: BundleView, v: FieldView) -> BundleView {
        BundleView {
            definitions: bundle.definitions.update(self@ as int, DefinitionView::Field(v)),
            ..bundle
        }
    }

    fn get_mut<'a>(self, bundle: &'a mut ScriptBundle) -> (r: Option<&'a mut Field>) {
        let at: usize = self.value() as usize;
        if at < bundle.definitions.items().len() {
            let ghost before = bundle.definitions.items@;
            proof {
                assert(before.update(at as int, before[at as int]) =~= before);
            }
            let slot = bundle.definitions.slot_mut(at);
            match slot {
                Definition::Field(v) => {
                    proof {
                        assert(definition_views(
                            before.update(at as int, Definition::Field(*final(v))),
                        ) =~= definition_views(before).update(
                            at as int,
                            DefinitionView::Field((*final(v))@),
                        ));
                    }
                    Some(v)
                },
                _ => None,
            }
        } else {
            None
        }
    }
}

impl DefinitionIndex for Field {
    type Index = types::Field;

    open spec fn wrap(v: FieldView) -> DefinitionView {
        DefinitionView::Field(v)
    }

    fn into_definition(self) -> (d: Definition) {
        Definition::Field(self)
    }
}

impl PoolItem for SourceFileIndex {
    type Output = SourceFile;

    open spec fn lookup(self, bundle: BundleView) -> Option<SourceFileView> {
        if self@ < bundle.definitions.len() {
            match bundle.definitions[self@ as int] {
                DefinitionView::SourceFile(v) => Some(v),
                _ => None,
            }
        } else {
            None
        }
    }

    fn get<'a>(self, bundle: &'a ScriptBundle) -> (r: Option<&'a SourceFile>) {
        let at: usize = self.value() as usize;
        let defs = bundle.definitions.items();
        if at < defs.len() {
            match &defs[at] {
                Definition::SourceFile(v) => Some(v),
                _ => None,
            }
        } else {
            None
        }
    }
}

impl PoolItemMut for SourceFileIndex {
    open spec fn replaced(self, bundle: BundleView, v: SourceFileView) -> BundleView {
        BundleView {
            definitions: bundle.definitions.update(self@ as int, DefinitionView::SourceFile(v)),
            ..bundle
        }
    }

    fn get_mut<'a>(self, bundle: &'a mut ScriptBundle) -> (r: Option<&'a mut SourceFile>) {
        let at: usize = self.value() as usize;
        if at < bundle.definitions.items().len() {
            let ghost before = bundle.definitions.items@;
            proof {
                assert(before.update(at as int, before[at as int]) =~= before);
            }
            let slot = bundle.definitions.slot_mut(at);
            match slot {
                Definition::SourceFile(v) => {
                    proof {
                        assert(definition_views(
                            before.update(at as int, Definition::SourceFile(*final(v))),
                        ) =~= definition_views(before).update(
                            at as int,
                            DefinitionView::SourceFile((*final(v))@),
                        ));
                    }
                    Some(v)
                },
                _ => None,
            }
        } else {
            None
        }
    }
}

impl DefinitionIndex for SourceFile {
    type Index = types::SourceFile;

    open spec fn wrap(v: SourceFileView) -> DefinitionView {
        DefinitionView::SourceFile(v)
    }

    fn into_definition(self) -> (d: Definition) {
        Definition::SourceFile(self)
    }
}


} // verus!
