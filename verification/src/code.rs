//! Function bodies: a run of instructions behind the number of bytes that
//! the run takes.

use vstd::prelude::*;
use crate::codec::{
    decoded, holds_at, laid, le32, lemma_holds_at_concat, lemma_le_len, lemma_overlay_concat,
    lemma_parse_u32_at, measured, overlay, parse_u32, put_u32, take_u32,
};
use crate::error::Error;
use crate::instr::{
    Instr, InstrView, lemma_encoded_size, lemma_parse_instr_at, lemma_parse_instr_wf, Offset,
    parse_instr,
};
use crate::list::{
    lemma_list_wire_cons, lemma_list_wire_prefix, lemma_list_wire_push, list_wire, resume,
};

verus! {

/// The body of a function: its instructions in order.
#[derive(Debug, Clone, PartialEq)]
pub struct FunctionBody {
    pub code: Vec<Instr<Offset>>,
}

/// What stands in contracts for the instructions of a vector.
pub open spec fn instr_views(s: Seq<Instr<Offset>>) -> Seq<InstrView> {
    s.map_values(|i: Instr<Offset>| i@)
}

impl View for FunctionBody {
    type V = Seq<InstrView>;

    open spec fn view(&self) -> Seq<InstrView> {
        instr_views(self.code@)
    }
}

/// The rule by which an instruction is encoded.
pub open spec fn instr_rule() -> spec_fn(InstrView) -> Seq<u8> {
    |v: InstrView| v.wire()
}

/// The instructions of a body, as bytes.
pub open spec fn instrs_wire(code: Seq<InstrView>) -> Seq<u8> {
    list_wire(instr_rule(), code)
}

/// A body, as bytes: the number of bytes that its instructions take, and the
/// instructions.
pub open spec fn code_wire(code: Seq<InstrView>) -> Seq<u8> {
    le32(instrs_wire(code).len() as u32) + instrs_wire(code)
}

/// Whether the number of bytes that the instructions take fits in 32 bits.
pub open spec fn code_encodable(code: Seq<InstrView>) -> bool {
    instrs_wire(code).len() <= u32::MAX
}

/// Whether a body is one that decoding can give: it is encodable, each of
/// its instructions is one that executable code can hold, and none is the
/// marker of a place.
pub open spec fn code_wf(code: Seq<InstrView>) -> bool {
    &&& code_encodable(code)
    &&& forall|i: int| 0 <= i < code.len() ==> (#[trigger] code[i]).wf() && !code[i].is_target()
}

/// The error that an instruction which ends behind the end of its body is
/// answered with.
pub open spec fn overrun_error() -> Error {
    Error::BadInput { err: "instruction runs past the end of the code" }
}

/// The instructions from `pos` up to `end`, and `end`. The last of them has
/// to end at `end`.
pub open spec fn parse_instrs(bytes: Seq<u8>, pos: int, end: int) -> Result<
    (Seq<InstrView>, int),
    Error,
>
    decreases end - pos,
{
    if pos >= end {
        Ok((Seq::empty(), pos))
    } else {
        match parse_instr(bytes, pos) {
            Err(e) => Err(e),
            Ok((v, to)) => {
                proof {
                    lemma_parse_instr_wf(bytes, pos);
                }
                if to > end {
                    Err(overrun_error())
                } else {
                    match parse_instrs(bytes, to, end) {
                        Err(e) => Err(e),
                        Ok((rest, at)) => Ok((seq![v] + rest, at)),
                    }
                }
            },
        }
    }
}

/// The body at `pos`, and the position after it. A body that is announced
/// longer than the buffer is answered with `Incomplete`.
pub open spec fn parse_code(bytes: Seq<u8>, pos: int) -> Result<(Seq<InstrView>, int), Error> {
    match parse_u32(bytes, pos) {
        Ok((size, start)) => if start + size > bytes.len() {
            Err(Error::Incomplete)
        } else {
            parse_instrs(bytes, start, start + size)
        },
        Err(e) => Err(e),
    }
}

/// One more instruction decoded: the body goes on behind it, or ends with
/// its error.
pub proof fn lemma_instrs_step(bytes: Seq<u8>, pos: int, end: int, done: Seq<InstrView>)
    requires
        pos < end,
    ensures
        resume(done, parse_instrs(bytes, pos, end)) == (match parse_instr(bytes, pos) {
            Err(e) => Err(e),
            Ok((v, to)) => if to > end {
                Err(overrun_error())
            } else {
                resume(done.push(v), parse_instrs(bytes, to, end))
            },
        }),
{
    match parse_instr(bytes, pos) {
        Err(e) => {},
        Ok((v, to)) => {
            if to <= end {
                match parse_instrs(bytes, to, end) {
                    Err(e) => {},
                    Ok((rest, at)) => {
                        assert(done + (seq![v] + rest) =~= done.push(v) + rest);
                    },
                }
            }
        },
    }
}

/// Decodes the body at `pos`; hands back the body and the position after it.
pub fn take_code(bytes: &[u8], pos: usize) -> (r: Result<(FunctionBody, usize), Error>)
    ensures
        decoded(parse_code(bytes@, pos as int), r),
{
    let (size, start) = take_u32(bytes, pos)?;
    if size as usize > bytes.len() - start {
        return Err(Error::Incomplete);
    }
    let end: usize = start + size as usize;
    let mut code: Vec<Instr<Offset>> = Vec::new();
    let mut at: usize = start;
    proof {
        assert(Seq::<InstrView>::empty() + parse_instrs(bytes@, start as int, end as int)->Ok_0.0
            =~= parse_instrs(bytes@, start as int, end as int)->Ok_0.0);
    }
    while at < end
        invariant
            start <= at <= end,
            end <= bytes@.len(),
            parse_u32(bytes@, pos as int) == Ok::<(u32, int), Error>((size, start as int)),
            end == start + size,
            resume(instr_views(code@), parse_instrs(bytes@, at as int, end as int)) == parse_instrs(
                bytes@,
                start as int,
                end as int,
            ),
        decreases end - at,
    {
        proof {
            lemma_instrs_step(bytes@, at as int, end as int, instr_views(code@));
            if parse_instr(bytes@, at as int) is Ok {
                lemma_parse_instr_wf(bytes@, at as int);
            }
        }
        let ghost before = code@;
        let (instr, to) = Instr::read_at(bytes, at)?;
        if to > end {
            return Err(Error::BadInput { err: "instruction runs past the end of the code" });
        }
        code.push(instr);
        proof {
            assert(instr_views(code@) =~= instr_views(before).push(instr@));
        }
        at = to;
    }
    Ok((FunctionBody { code }, at))
}

/// The number of bytes that the instructions take, if it fits in 32 bits.
pub fn measure_instrs(code: &Vec<Instr<Offset>>) -> (r: Option<u32>)
    ensures
        r == measured(true, instrs_wire(instr_views(code@)).len()),
{
    let ghost views = instr_views(code@);
    let n: usize = code.len();
    let mut total: u64 = 0;
    let mut i: usize = 0;
    while i < n
        invariant
            i <= n,
            n == code@.len(),
            views == instr_views(code@),
            total == instrs_wire(views.take(i as int)).len(),
            total <= u32::MAX,
        decreases n - i,
    {
        proof {
            lemma_list_wire_push(instr_rule(), views, i as int);
            lemma_list_wire_prefix(instr_rule(), views, i + 1);
            lemma_encoded_size(code@[i as int]);
        }
        total = total + code[i].size() as u64;
        if total > 0xFFFF_FFFF {
            return None;
        }
        i += 1;
    }
    proof {
        assert(views.take(n as int) =~= views);
    }
    Some(total as u32)
}

/// The number of bytes that the body takes, if it fits in 32 bits.
pub fn measure_code(body: &FunctionBody) -> (r: Option<u32>)
    ensures
        r == measured(code_encodable(body@), code_wire(body@).len()),
{
    proof {
        lemma_le_len();
    }
    match measure_instrs(&body.code) {
        Some(n) => if n > 0xFFFF_FFFB {
            None
        } else {
            Some(n + 4)
        },
        None => None,
    }
}

/// Lays the body over the buffer at `pos`, where there is room for it.
pub(crate) fn put_code(bytes: &mut [u8], pos: usize, body: &FunctionBody) -> (r: Result<usize, Error>)
    requires
        code_encodable(body@),
        pos + code_wire(body@).len() <= old(bytes)@.len(),
    ensures
        laid(old(bytes)@, pos as int, code_wire(body@), r, final(bytes)@),
{
    proof {
        lemma_le_len();
    }
    let ghost views = body@;
    let size: u32 = match measure_instrs(&body.code) {
        Some(size) => size,
        None => {
            return Err(Error::Incomplete);
        },
    };
    let n: usize = body.code.len();
    let mut at: usize = put_u32(bytes, pos, size)?;
    let mut i: usize = 0;
    while i < n
        invariant
            i <= n,
            n == body.code@.len(),
            views == instr_views(body.code@),
            size == instrs_wire(views).len(),
            at == pos + 4 + instrs_wire(views.take(i as int)).len(),
            pos + 4 + instrs_wire(views).len() <= bytes@.len(),
            bytes@.len() == old(bytes)@.len(),
            bytes@ == overlay(old(bytes)@, pos as int, le32(size) + instrs_wire(views.take(i as int))),
        decreases n - i,
    {
        proof {
            lemma_le_len();
            lemma_list_wire_push(instr_rule(), views, i as int);
            lemma_list_wire_prefix(instr_rule(), views, i + 1);
            lemma_overlay_concat(
                old(bytes)@,
                pos as int,
                le32(size) + instrs_wire(views.take(i as int)),
                views[i as int].wire(),
            );
            assert(le32(size) + instrs_wire(views.take(i as int)) + views[i as int].wire() =~= le32(
                size,
            ) + instrs_wire(views.take(i + 1)));
        }
        at = body.code[i].put(bytes, at)?;
        i += 1;
    }
    proof {
        assert(views.take(n as int) =~= views);
    }
    Ok(at)
}

/// Instructions that the buffer holds from `pos` up to `end` are read back.
pub proof fn lemma_parse_instrs_at(bytes: Seq<u8>, pos: int, end: int, code: Seq<InstrView>)
    requires
        holds_at(bytes, pos, instrs_wire(code)),
        end == pos + instrs_wire(code).len(),
        forall|i: int| 0 <= i < code.len() ==> (#[trigger] code[i]).wf() && !code[i].is_target(),
    ensures
        parse_instrs(bytes, pos, end) == Ok::<(Seq<InstrView>, int), Error>((code, end)),
    decreases code.len(),
{
    if code.len() == 0 {
        assert(code =~= Seq::<InstrView>::empty());
    } else {
        let rest = code.drop_first();
        lemma_list_wire_cons(instr_rule(), code);
        lemma_holds_at_concat(bytes, pos, code[0].wire(), instrs_wire(rest));
        lemma_parse_instr_at(bytes, pos, code[0]);
        lemma_parse_instr_wf(bytes, pos);
        assert forall|i: int| 0 <= i < rest.len() implies (#[trigger] rest[i]).wf()
            && !rest[i].is_target() by {
        }
        lemma_parse_instrs_at(bytes, pos + code[0].wire().len(), end, rest);
        assert(seq![code[0]] + rest =~= code);
    }
}

/// A body that the buffer holds is read back.
pub proof fn lemma_parse_code_at(bytes: Seq<u8>, pos: int, code: Seq<InstrView>)
    requires
        holds_at(bytes, pos, code_wire(code)),
        code_wf(code),
    ensures
        parse_code(bytes, pos) == Ok::<(Seq<InstrView>, int), Error>((code, pos + code_wire(code).len())),
{
    lemma_le_len();
    let size = instrs_wire(code).len() as u32;
    lemma_holds_at_concat(bytes, pos, le32(size), instrs_wire(code));
    lemma_parse_u32_at(bytes, pos, size);
    lemma_parse_instrs_at(bytes, pos + 4, pos + 4 + size, code);
}

/// The instructions that were decoded up to `end` are ones that executable
/// code can hold, none is the marker of a place, and together they are
/// encoded in the bytes from `pos` up to `end`.
pub proof fn lemma_parse_instrs_wf(bytes: Seq<u8>, pos: int, end: int)
    requires
        parse_instrs(bytes, pos, end) is Ok,
        pos <= end,
    ensures
        instrs_wire(parse_instrs(bytes, pos, end)->Ok_0.0).len() == end - pos,
        forall|i: int|
            0 <= i < parse_instrs(bytes, pos, end)->Ok_0.0.len() ==> (#[trigger] parse_instrs(
                bytes,
                pos,
                end,
            )->Ok_0.0[i]).wf() && !parse_instrs(bytes, pos, end)->Ok_0.0[i].is_target(),
    decreases end - pos,
{
    if pos < end {
        lemma_parse_instr_wf(bytes, pos);
        let (v, to) = parse_instr(bytes, pos)->Ok_0;
        lemma_parse_instrs_wf(bytes, to, end);
        let (rest, at) = parse_instrs(bytes, to, end)->Ok_0;
        let code = seq![v] + rest;
        lemma_list_wire_cons(instr_rule(), code);
        assert(code.drop_first() =~= rest);
        assert forall|i: int| 0 <= i < code.len() implies (#[trigger] code[i]).wf()
            && !code[i].is_target() by {
            if i > 0 {
            }
        }
    }
}

/// What is decoded as a body is well formed.
pub proof fn lemma_parse_code_wf(bytes: Seq<u8>, pos: int)
    requires
        parse_code(bytes, pos) is Ok,
    ensures
        code_wf(parse_code(bytes, pos)->Ok_0.0),
{
    let (size, start) = parse_u32(bytes, pos)->Ok_0;
    lemma_parse_instrs_wf(bytes, start, start + size);
}

} // verus!
