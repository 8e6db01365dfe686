//! Text behind a 16-bit length, and the name-and-value pairs that fields
//! carry.

use vstd::prelude::*;
use vstd::utf8::{decode_utf8_encode_utf8, encode_utf8};
use crate::codec::{
    decoded, holds_at, laid, le16, le32, lemma_holds_at_concat, lemma_le_len, lemma_overlay_concat,
    lemma_parse_str_at, lemma_parse_u16_at, lemma_parse_u32_at, measured, overlay, parse_str,
    parse_u16, parse_u32, put_bytes, put_u16, put_u32, take_str, take_u16, take_u32,
};
use crate::error::Error;
use crate::index::group_index;
use crate::list::{
    lemma_list_wire_prefix, lemma_list_wire_push, lemma_parse_list_at, lemma_parse_list_each,
    lemma_resume_done, lemma_resume_step, list_wire, parse_list, resume,
};

verus! {

/// Text as bytes: the length of its UTF-8 encoding, and the encoding.
pub open spec fn str16_wire(s: Seq<char>) -> Seq<u8> {
    le16(encode_utf8(s).len() as u16) + encode_utf8(s)
}

/// Whether the length of the text's encoding fits in 16 bits.
pub open spec fn str16_encodable(s: Seq<char>) -> bool {
    encode_utf8(s).len() <= u16::MAX
}

/// Whether the text is one that decoding can give.
pub open spec fn str16_wf(s: Seq<char>) -> bool {
    str16_encodable(s)
}

/// The text at `pos`, and the position after it.
pub open spec fn parse_str16(bytes: Seq<u8>, pos: int) -> Result<(Seq<char>, int), Error> {
    match parse_u16(bytes, pos) {
        Ok((n, to)) => parse_str(bytes, to, n as nat),
        Err(e) => Err(e),
    }
}

/// Decodes the text at `pos`; hands back the text and the position after it.
pub fn take_str16(bytes: &[u8], pos: usize) -> (r: Result<(String, usize), Error>)
    ensures
        decoded(parse_str16(bytes@, pos as int), r),
{
    let (n, start) = take_u16(bytes, pos)?;
    let (text, at) = take_str(bytes, start, n as usize)?;
    Ok((text.to_owned(), at))
}

/// Lays the text over the buffer at `pos`, where there is room for it.
pub(crate) fn put_str16(bytes: &mut [u8], pos: usize, s: &String) -> (r: Result<usize, Error>)
    requires
        str16_encodable(s@),
        pos + str16_wire(s@).len() <= old(bytes)@.len(),
    ensures
        laid(old(bytes)@, pos as int, str16_wire(s@), r, final(bytes)@),
{
    proof {
        lemma_le_len();
    }
    let raw = s.as_str().as_bytes();
    let n: usize = raw.len();
    let at = put_u16(bytes, pos, n as u16)?;
    let end = put_bytes(bytes, at, raw)?;
    proof {
        lemma_overlay_concat(old(bytes)@, pos as int, le16(n as u16), raw@);
    }
    Ok(end)
}

/// The number of bytes that the text takes, if it is encodable.
pub fn measure_str16(s: &String) -> (r: Option<u32>)
    ensures
        r == measured(str16_encodable(s@), str16_wire(s@).len()),
{
    proof {
        lemma_le_len();
    }
    let n: usize = s.as_str().as_bytes().len();
    if n > 0xFFFF {
        None
    } else {
        Some((2 + n) as u32)
    }
}

/// Text that the buffer holds is read back.
pub proof fn lemma_parse_str16_at(bytes: Seq<u8>, pos: int, s: Seq<char>)
    requires
        holds_at(bytes, pos, str16_wire(s)),
        str16_wf(s),
    ensures
        parse_str16(bytes, pos) == Ok::<(Seq<char>, int), Error>((s, pos + str16_wire(s).len())),
{
    lemma_le_len();
    let n = encode_utf8(s).len() as u16;
    lemma_holds_at_concat(bytes, pos, le16(n), encode_utf8(s));
    lemma_parse_u16_at(bytes, pos, n);
    lemma_parse_str_at(bytes, pos + 2, s);
}

/// What is decoded as text is well formed.
pub proof fn lemma_parse_str16_wf(bytes: Seq<u8>, pos: int)
    requires
        parse_str16(bytes, pos) is Ok,
    ensures
        str16_wf(parse_str16(bytes, pos)->Ok_0.0),
{
    let (n, to) = parse_u16(bytes, pos)->Ok_0;
    decode_utf8_encode_utf8(bytes.subrange(to, to + n));
}

/// A hint, as bytes: nothing where none is announced.
pub open spec fn hint_wire(present: bool, v: Seq<char>) -> Seq<u8> {
    if present {
        str16_wire(v)
    } else {
        Seq::empty()
    }
}

/// Whether a hint can be encoded if it is announced.
pub open spec fn hint_encodable(present: bool, v: Seq<char>) -> bool {
    present ==> str16_encodable(v)
}

/// Whether a hint is well formed if it is announced, and empty if it is not.
pub open spec fn hint_wf(present: bool, v: Seq<char>) -> bool {
    if present {
        str16_wf(v)
    } else {
        v.len() == 0
    }
}

/// A hint at `pos`, if it is announced, and the position after it.
pub open spec fn parse_hint(
    present: bool,
    bytes: Seq<u8>,
    pos: int,
) -> Result<(Seq<char>, int), Error> {
    if present {
        parse_str16(bytes, pos)
    } else {
        Ok((Seq::<char>::empty(), pos))
    }
}

/// Decodes a hint at `pos`, if it is announced.
pub fn take_hint(present: bool, bytes: &[u8], pos: usize) -> (r: Result<(String, usize), Error>)
    ensures
        match parse_hint(present, bytes@, pos as int) {
            Ok((v, to)) => r is Ok && r->Ok_0.0@ == v && r->Ok_0.1 == to,
            Err(e) => r == Err::<(String, usize), Error>(e),
        },
{
    if present {
        take_str16(bytes, pos)
    } else {
        let v: String = String::new();
        proof {
            assert(v@ =~= Seq::<char>::empty());
        }
        Ok((v, pos))
    }
}

/// Lays a hint over the buffer at `pos`, where there is room for it.
pub(crate) fn put_hint(
    bytes: &mut [u8],
    pos: usize,
    present: bool,
    v: &String,
) -> (r: Result<usize, Error>)
    requires
        hint_encodable(present, v@),
        pos + hint_wire(present, v@).len() <= old(bytes)@.len(),
    ensures
        laid(old(bytes)@, pos as int, hint_wire(present, v@), r, final(bytes)@),
{
    if present {
        put_str16(bytes, pos, v)
    } else {
        proof {
            assert(overlay(bytes@, pos as int, Seq::<u8>::empty()) =~= bytes@);
        }
        Ok(pos)
    }
}

/// The number of bytes that a hint takes.
pub fn measure_hint(present: bool, v: &String) -> (r: Option<u32>)
    ensures
        r == measured(hint_encodable(present, v@), hint_wire(present, v@).len()),
{
    if present {
        measure_str16(v)
    } else {
        Some(0)
    }
}

/// A hint that the buffer holds is read back.
pub proof fn lemma_parse_hint_at(bytes: Seq<u8>, pos: int, present: bool, v: Seq<char>)
    requires
        holds_at(bytes, pos, hint_wire(present, v)),
        hint_wf(present, v),
    ensures
        parse_hint(present, bytes, pos) == Ok::<(Seq<char>, int), Error>(
            (v, pos + hint_wire(present, v).len()),
        ),
{
    if present {
        lemma_parse_str16_at(bytes, pos, v);
    } else {
        assert(v =~= Seq::<char>::empty());
    }
}

/// What is decoded as a hint is well formed.
pub proof fn lemma_parse_hint_wf(present: bool, bytes: Seq<u8>, pos: int)
    requires
        parse_hint(present, bytes, pos) is Ok,
    ensures
        hint_wf(present, parse_hint(present, bytes, pos)->Ok_0.0),
{
    if present {
        lemma_parse_str16_wf(bytes, pos);
    }
}

/// A name and a value, both text.
#[derive(Debug, Clone, PartialEq, Eq)]
pub struct Property {
    pub name: String,
    pub value: String,
}

/// What stands for a `Property` in contracts.
pub struct PropertyView {
    pub name: Seq<char>,
    pub value: Seq<char>,
}

impl View for Property {
    type V = PropertyView;

    open spec fn view(&self) -> PropertyView {
        PropertyView { name: self.name@, value: self.value@ }
    }
}

/// A name and its value, as bytes.
pub open spec fn property_wire(v: PropertyView) -> Seq<u8> {
    str16_wire(v.name) + str16_wire(v.value)
}

/// Whether the counts and lengths in a name and its value fit the widths they
/// are written in.
pub open spec fn property_encodable(v: PropertyView) -> bool {
    &&& str16_encodable(v.name)
    &&& str16_encodable(v.value)
}

/// Whether a name and its value is one that decoding can give: it is
/// encodable, names no definition by zero, and holds what its flags announce.
pub open spec fn property_wf(v: PropertyView) -> bool {
    &&& property_encodable(v)
    &&& str16_wf(v.name)
    &&& str16_wf(v.value)
}

/// A name and its value at `pos`, and the position after it.
pub open spec fn parse_property(bytes: Seq<u8>, pos: int) -> Result<(PropertyView, int), Error> {
    let r0 = parse_str16(bytes, pos);
    let (f0, n0) = r0->Ok_0;
    let r1 = parse_str16(bytes, n0);
    let (f1, n1) = r1->Ok_0;
    if r0 is Err {
        Err(r0->Err_0)
    } else if r1 is Err {
        Err(r1->Err_0)
    } else {
        Ok((PropertyView { name: f0, value: f1 }, n1))
    }
}

/// Decodes a name and its value at `pos`; hands back the value and the
/// position after it.
pub fn take_property(bytes: &[u8], pos: usize) -> (r: Result<(Property, usize), Error>)
    ensures
        decoded(parse_property(bytes@, pos as int), r),
{
    let (f0, n0) = take_str16(bytes, pos)?;
    let (f1, n1) = take_str16(bytes, n0)?;
    Ok((Property { name: f0, value: f1 }, n1))
}

/// Lays a name and its value over the buffer at `pos`, where there is room
/// for it.
pub(crate) fn put_property(bytes: &mut [u8], pos: usize, v: &Property) -> (r: Result<usize, Error>)
    requires
        property_encodable(v@),
        pos + property_wire(v@).len() <= old(bytes)@.len(),
    ensures
        laid(old(bytes)@, pos as int, property_wire(v@), r, final(bytes)@),
{
    proof {
        lemma_le_len();
    }
    let n0 = put_str16(bytes, pos, &v.name)?;
    let n1 = put_str16(bytes, n0, &v.value)?;
    proof {
        lemma_overlay_concat(old(bytes)@, pos as int, str16_wire(v@.name), str16_wire(v@.value));
    }
    Ok(n1)
}

/// The number of bytes that a name and its value takes, if it is encodable
/// and that number fits in 32 bits.
pub fn measure_property(v: &Property) -> (r: Option<u32>)
    ensures
        r == measured(property_encodable(v@), property_wire(v@).len()),
{
    proof {
        lemma_le_len();
    }
    let mut total: u64 = 0;
    match measure_str16(&v.name) {
        Some(n) => {
            total = total + n as u64;
        },
        None => {
            return None;
        },
    }
    match measure_str16(&v.value) {
        Some(n) => {
            total = total + n as u64;
        },
        None => {
            return None;
        },
    }
    if total > 0xFFFF_FFFF {
        None
    } else {
        Some(total as u32)
    }
}

/// A name and its value that the buffer holds is read back.
pub proof fn lemma_parse_property_at(bytes: Seq<u8>, pos: int, v: PropertyView)
    requires
        holds_at(bytes, pos, property_wire(v)),
        property_wf(v),
    ensures
        parse_property(bytes, pos) == Ok::<(PropertyView, int), Error>(
            (v, pos + property_wire(v).len()),
        ),
{
    broadcast use group_index;

    lemma_le_len();
    lemma_holds_at_concat(bytes, pos, str16_wire(v.name), str16_wire(v.value));
    lemma_parse_str16_at(bytes, pos, v.name);
    lemma_parse_str16_at(bytes, pos + (str16_wire(v.name)).len(), v.value);
}

/// What is decoded as a name and its value is well formed.
pub proof fn lemma_parse_property_wf(bytes: Seq<u8>, pos: int)
    requires
        parse_property(bytes, pos) is Ok,
    ensures
        property_wf(parse_property(bytes, pos)->Ok_0.0),
{
    broadcast use group_index;

    lemma_le_len();
    lemma_parse_str16_wf(bytes, pos);
    let (f0, n0) = parse_str16(bytes, pos)->Ok_0;
    lemma_parse_str16_wf(bytes, n0);
    let (f1, n1) = parse_str16(bytes, n0)->Ok_0;
}

/// The rule by which a name and its value is encoded.
pub open spec fn property_rule() -> spec_fn(PropertyView) -> Seq<u8> {
    |x: PropertyView| property_wire(x)
}

/// The rule by which a name and its value is decoded.
pub open spec fn property_parser() -> spec_fn(Seq<u8>, int) -> Result<(PropertyView, int), Error> {
    |bytes: Seq<u8>, pos: int| parse_property(bytes, pos)
}

/// What stands in contracts for the values of a vector.
pub open spec fn property_views(s: Seq<Property>) -> Seq<PropertyView> {
    s.map_values(|x: Property| x@)
}

/// A list of names and values, as bytes: the count and the values.
pub open spec fn property_list_wire(s: Seq<PropertyView>) -> Seq<u8> {
    le32(s.len() as u32) + list_wire(property_rule(), s)
}

/// Whether the count of a list of names and values fits in 32 bits and each
/// value is encodable.
pub open spec fn property_list_encodable(s: Seq<PropertyView>) -> bool {
    &&& s.len() <= u32::MAX
    &&& forall|i: int| 0 <= i < s.len() ==> property_encodable(#[trigger] s[i])
}

/// Whether the count of a list of names and values fits in 32 bits and each
/// value is well formed.
pub open spec fn property_list_wf(s: Seq<PropertyView>) -> bool {
    &&& s.len() <= u32::MAX
    &&& forall|i: int| 0 <= i < s.len() ==> property_wf(#[trigger] s[i])
}

/// A list of names and values at `pos`, and the position after it.
pub open spec fn parse_property_list(
    bytes: Seq<u8>,
    pos: int,
) -> Result<(Seq<PropertyView>, int), Error> {
    match parse_u32(bytes, pos) {
        Ok((count, to)) => parse_list(property_parser(), bytes, to, count as nat),
        Err(e) => Err(e),
    }
}

/// Decodes a list of names and values at `pos`; hands back the values and the
/// position after them.
pub fn take_property_list(bytes: &[u8], pos: usize) -> (r: Result<(Vec<Property>, usize), Error>)
    ensures
        match parse_property_list(bytes@, pos as int) {
            Ok((s, to)) => r is Ok && property_views(r->Ok_0.0@) == s && r->Ok_0.1 == to,
            Err(e) => r == Err::<(Vec<Property>, usize), Error>(e),
        },
{
    let (count, start) = take_u32(bytes, pos)?;
    let mut out: Vec<Property> = Vec::new();
    let mut at: usize = start;
    let mut i: u32 = 0;
    proof {
        assert(property_views(out@) =~= Seq::<PropertyView>::empty());
        assert(Seq::<PropertyView>::empty() + parse_list(
            property_parser(),
            bytes@,
            start as int,
            count as nat,
        )->Ok_0.0 =~= parse_list(property_parser(), bytes@, start as int, count as nat)->Ok_0.0);
    }
    while i < count
        invariant
            i <= count,
            parse_u32(bytes@, pos as int) == Ok::<(u32, int), Error>((count, start as int)),
            resume(
                property_views(out@),
                parse_list(property_parser(), bytes@, at as int, (count - i) as nat),
            ) == parse_list(property_parser(), bytes@, start as int, count as nat),
        decreases count - i,
    {
        proof {
            lemma_resume_step(
                property_parser(),
                bytes@,
                at as int,
                (count - i) as nat,
                property_views(out@),
            );
        }
        let ghost before = out@;
        let (x, to) = take_property(bytes, at)?;
        out.push(x);
        proof {
            assert(property_views(out@) =~= property_views(before).push(x@));
        }
        at = to;
        i += 1;
    }
    proof {
        lemma_resume_done(property_parser(), bytes@, at as int, property_views(out@));
    }
    Ok((out, at))
}

/// Lays a list of names and values over the buffer at `pos`, where there is
/// room for it.
pub(crate) fn put_property_list(
    bytes: &mut [u8],
    pos: usize,
    list: &Vec<Property>,
) -> (r: Result<usize, Error>)
    requires
        property_list_encodable(property_views(list@)),
        pos + property_list_wire(property_views(list@)).len() <= old(bytes)@.len(),
    ensures
        laid(old(bytes)@, pos as int, property_list_wire(property_views(list@)), r, final(bytes)@),
{
    proof {
        lemma_le_len();
    }
    let ghost views = property_views(list@);
    let n: usize = list.len();
    let mut at: usize = put_u32(bytes, pos, n as u32)?;
    let mut i: usize = 0;
    proof {
        assert(views.take(0) =~= Seq::<PropertyView>::empty());
        assert(le32(n as u32) + list_wire(property_rule(), views.take(0)) =~= le32(n as u32));
    }
    while i < n
        invariant
            i <= n,
            n == list@.len(),
            n <= u32::MAX,
            views == property_views(list@),
            property_list_encodable(views),
            at == pos + 4 + list_wire(property_rule(), views.take(i as int)).len(),
            pos + 4 + list_wire(property_rule(), views).len() <= bytes@.len(),
            bytes@.len() == old(bytes)@.len(),
            bytes@ == overlay(
                old(bytes)@,
                pos as int,
                le32(n as u32) + list_wire(property_rule(), views.take(i as int)),
            ),
        decreases n - i,
    {
        proof {
            lemma_le_len();
            lemma_list_wire_push(property_rule(), views, i as int);
            lemma_list_wire_prefix(property_rule(), views, i + 1);
            lemma_overlay_concat(
                old(bytes)@,
                pos as int,
                le32(n as u32) + list_wire(property_rule(), views.take(i as int)),
                property_wire(views[i as int]),
            );
            assert(le32(n as u32) + list_wire(property_rule(), views.take(i as int)) + property_wire(
                views[i as int],
            ) =~= le32(n as u32) + list_wire(property_rule(), views.take(i + 1)));
        }
        at = put_property(bytes, at, &list[i])?;
        i += 1;
    }
    proof {
        assert(views.take(n as int) =~= views);
    }
    Ok(at)
}

/// The number of bytes that a list of names and values takes, if it is
/// encodable and that number fits in 32 bits.
pub fn measure_property_list(list: &Vec<Property>) -> (r: Option<u32>)
    ensures
        r == measured(
            property_list_encodable(property_views(list@)),
            property_list_wire(property_views(list@)).len(),
        ),
{
    proof {
        lemma_le_len();
    }
    let ghost views = property_views(list@);
    let n: usize = list.len();
    if n > 0xFFFF_FFFF {
        return None;
    }
    let mut total: u64 = 4;
    let mut i: usize = 0;
    proof {
        assert(views.take(0) =~= Seq::<PropertyView>::empty());
    }
    while i < n
        invariant
            i <= n,
            n == list@.len(),
            n <= u32::MAX,
            views == property_views(list@),
            total == 4 + list_wire(property_rule(), views.take(i as int)).len(),
            total <= u32::MAX,
            forall|k: int| 0 <= k < i ==> property_encodable(#[trigger] views[k]),
        decreases n - i,
    {
        proof {
            lemma_le_len();
            lemma_list_wire_push(property_rule(), views, i as int);
            lemma_list_wire_prefix(property_rule(), views, i + 1);
        }
        match measure_property(&list[i]) {
            Some(size) => {
                total = total + size as u64;
            },
            None => {
                return None;
            },
        }
        if total > 0xFFFF_FFFF {
            return None;
        }
        i += 1;
    }
    proof {
        assert(views.take(n as int) =~= views);
    }
    Some(total as u32)
}

/// A list of names and values that the buffer holds is read back.
pub proof fn lemma_parse_property_list_at(bytes: Seq<u8>, pos: int, s: Seq<PropertyView>)
    requires
        holds_at(bytes, pos, property_list_wire(s)),
        property_list_wf(s),
    ensures
        parse_property_list(bytes, pos) == Ok::<(Seq<PropertyView>, int), Error>(
            (s, pos + property_list_wire(s).len()),
        ),
{
    lemma_le_len();
    lemma_holds_at_concat(bytes, pos, le32(s.len() as u32), list_wire(property_rule(), s));
    lemma_parse_u32_at(bytes, pos, s.len() as u32);
    assert forall|i: int, at: int|
        0 <= i < s.len() && #[trigger] holds_at(
            bytes,
            at,
            property_rule()(s[i]),
        ) implies property_parser()(
        bytes,
        at,
    ) == Ok::<(PropertyView, int), Error>((s[i], at + property_rule()(s[i]).len())) by {
        lemma_parse_property_at(bytes, at, s[i]);
    }
    lemma_parse_list_at(property_parser(), property_rule(), bytes, pos + 4, s);
}

/// What is decoded as a list of names and values is well formed.
pub proof fn lemma_parse_property_list_wf(bytes: Seq<u8>, pos: int)
    requires
        parse_property_list(bytes, pos) is Ok,
    ensures
        property_list_wf(parse_property_list(bytes, pos)->Ok_0.0),
{
    let (count, to) = parse_u32(bytes, pos)->Ok_0;
    assert forall|at: int| #[trigger] property_parser()(bytes, at) is Ok implies property_wf(
        property_parser()(bytes, at)->Ok_0.0,
    ) by {
        lemma_parse_property_wf(bytes, at);
    }
    lemma_parse_list_each(
        property_parser(),
        |x: PropertyView| property_wf(x),
        bytes,
        to,
        count as nat,
    );
}

} // verus!
