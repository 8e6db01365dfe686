//! Runs of values that are encoded one after the other, each by the same
//! rule, and lists of definition handles behind their count.

use vstd::prelude::*;
use crate::codec::{
    holds_at, laid, le32, lemma_holds_at_concat, lemma_le_len, lemma_overlay_concat,
    lemma_parse_u32_at, measured, overlay, parse_nz, parse_u32, put_u32, take_nz, take_u32,
};
use crate::error::Error;
use crate::index::{group_index, NzPoolIndex};

verus! {

/// The values of `s` encoded one after the other, each by `w`.
pub open spec fn list_wire<T>(w: spec_fn(T) -> Seq<u8>, s: Seq<T>) -> Seq<u8>
    decreases s.len(),
{
    if s.len() == 0 {
        Seq::empty()
    } else {
        list_wire(w, s.drop_last()) + w(s.last())
    }
}

/// The `n` values that `p` decodes one after the other from `pos` on, and the
/// position after the last. The first value that cannot be decoded gives the
/// error.
pub open spec fn parse_list<T>(
    p: spec_fn(Seq<u8>, int) -> Result<(T, int), Error>,
    bytes: Seq<u8>,
    pos: int,
    n: nat,
) -> Result<(Seq<T>, int), Error>
    decreases n,
{
    if n == 0 {
        Ok((Seq::empty(), pos))
    } else {
        match p(bytes, pos) {
            Err(e) => Err(e),
            Ok((x, to)) => match parse_list(p, bytes, to, (n - 1) as nat) {
                Err(e) => Err(e),
                Ok((rest, end)) => Ok((seq![x] + rest, end)),
            },
        }
    }
}

/// The outcome of a run of which `done` has been decoded and `rest` is the
/// outcome of what is left.
pub open spec fn resume<T>(done: Seq<T>, rest: Result<(Seq<T>, int), Error>) -> Result<
    (Seq<T>, int),
    Error,
> {
    match rest {
        Ok((more, end)) => Ok((done + more, end)),
        Err(e) => Err(e),
    }
}

/// One more value decoded: the run goes on behind it, or ends with its error.
pub proof fn lemma_resume_step<T>(
    p: spec_fn(Seq<u8>, int) -> Result<(T, int), Error>,
    bytes: Seq<u8>,
    pos: int,
    n: nat,
    done: Seq<T>,
)
    requires
        n > 0,
    ensures
        resume(done, parse_list(p, bytes, pos, n)) == (match p(bytes, pos) {
            Err(e) => Err(e),
            Ok((x, to)) => resume(done.push(x), parse_list(p, bytes, to, (n - 1) as nat)),
        }),
{
    match p(bytes, pos) {
        Err(e) => {},
        Ok((x, to)) => {
            match parse_list(p, bytes, to, (n - 1) as nat) {
                Err(e) => {},
                Ok((rest, end)) => {
                    assert(done + (seq![x] + rest) =~= done.push(x) + rest);
                },
            }
        },
    }
}

/// Nothing is left of a run of which all has been decoded.
pub proof fn lemma_resume_done<T>(
    p: spec_fn(Seq<u8>, int) -> Result<(T, int), Error>,
    bytes: Seq<u8>,
    pos: int,
    done: Seq<T>,
)
    ensures
        resume(done, parse_list(p, bytes, pos, 0)) == Ok::<(Seq<T>, int), Error>((done, pos)),
{
}

/// An encoded run is its first value followed by the rest.
pub proof fn lemma_list_wire_cons<T>(w: spec_fn(T) -> Seq<u8>, s: Seq<T>)
    requires
        s.len() > 0,
    ensures
        list_wire(w, s) == w(s[0]) + list_wire(w, s.drop_first()),
    decreases s.len(),
{
    if s.len() == 1 {
        assert(list_wire(w, s.drop_last()) =~= Seq::<u8>::empty());
    } else {
        lemma_list_wire_cons(w, s.drop_last());
        assert(s.drop_last().drop_first() =~= s.drop_first().drop_last());
        assert(list_wire(w, s) =~= w(s[0]) + (list_wire(w, s.drop_first().drop_last()) + w(
            s.last(),
        )));
    }
}

/// An encoded run grows by the next value's encoding.
pub proof fn lemma_list_wire_push<T>(w: spec_fn(T) -> Seq<u8>, s: Seq<T>, i: int)
    requires
        0 <= i < s.len(),
    ensures
        list_wire(w, s.take(i + 1)) == list_wire(w, s.take(i)) + w(s[i]),
{
    assert(s.take(i + 1).drop_last() =~= s.take(i));
}

/// Where every value takes `width` bytes, a run of them takes as many times
/// that.
pub proof fn lemma_list_wire_len<T>(w: spec_fn(T) -> Seq<u8>, s: Seq<T>, width: nat)
    requires
        forall|i: int| 0 <= i < s.len() ==> (#[trigger] w(s[i])).len() == width,
    ensures
        list_wire(w, s).len() == width * s.len(),
    decreases s.len(),
{
    if s.len() > 0 {
        lemma_list_wire_len(w, s.drop_last(), width);
        assert(width * s.len() == width * (s.len() - 1) + width) by (nonlinear_arith);
    }
}

/// A run that the buffer holds is read back, if each of its values is read
/// back from wherever the buffer holds it.
pub proof fn lemma_parse_list_at<T>(
    p: spec_fn(Seq<u8>, int) -> Result<(T, int), Error>,
    w: spec_fn(T) -> Seq<u8>,
    bytes: Seq<u8>,
    pos: int,
    s: Seq<T>,
)
    requires
        holds_at(bytes, pos, list_wire(w, s)),
        forall|i: int, at: int|
            0 <= i < s.len() && #[trigger] holds_at(bytes, at, w(s[i])) ==> p(bytes, at) == Ok::<
                (T, int),
                Error,
            >((s[i], at + w(s[i]).len())),
    ensures
        parse_list(p, bytes, pos, s.len()) == Ok::<(Seq<T>, int), Error>(
            (s, pos + list_wire(w, s).len()),
        ),
    decreases s.len(),
{
    if s.len() == 0 {
        assert(s =~= Seq::<T>::empty());
    } else {
        let rest = s.drop_first();
        lemma_list_wire_cons(w, s);
        lemma_holds_at_concat(bytes, pos, w(s[0]), list_wire(w, rest));
        assert forall|i: int, at: int|
            0 <= i < rest.len() && #[trigger] holds_at(bytes, at, w(rest[i])) implies p(bytes, at)
            == Ok::<(T, int), Error>((rest[i], at + w(rest[i]).len())) by {
        }
        lemma_parse_list_at(p, w, bytes, pos + w(s[0]).len(), rest);
        assert(seq![s[0]] + rest =~= s);
    }
}

/// What a run decodes to has the length asked for, each of its values has
/// what `ok` says of every value that `p` decodes, and the run ends where
/// its encoding ends.
pub proof fn lemma_parse_list_ok<T>(
    p: spec_fn(Seq<u8>, int) -> Result<(T, int), Error>,
    w: spec_fn(T) -> Seq<u8>,
    ok: spec_fn(T) -> bool,
    bytes: Seq<u8>,
    pos: int,
    n: nat,
)
    requires
        parse_list(p, bytes, pos, n) is Ok,
        forall|at: int| #[trigger]
            p(bytes, at) is Ok ==> ok(p(bytes, at)->Ok_0.0) && p(bytes, at)->Ok_0.1 == at + w(
                p(bytes, at)->Ok_0.0,
            ).len(),
    ensures
        parse_list(p, bytes, pos, n)->Ok_0.0.len() == n,
        parse_list(p, bytes, pos, n)->Ok_0.1 == pos + list_wire(
            w,
            parse_list(p, bytes, pos, n)->Ok_0.0,
        ).len(),
        forall|i: int| 0 <= i < n ==> ok(#[trigger] parse_list(p, bytes, pos, n)->Ok_0.0[i]),
    decreases n,
{
    if n > 0 {
        let (x, to) = p(bytes, pos)->Ok_0;
        lemma_parse_list_ok(p, w, ok, bytes, to, (n - 1) as nat);
        let (rest, end) = parse_list(p, bytes, to, (n - 1) as nat)->Ok_0;
        let s = seq![x] + rest;
        lemma_list_wire_cons(w, s);
        assert(s.drop_first() =~= rest);
        assert forall|i: int| 0 <= i < n implies ok(#[trigger] s[i]) by {
            if i > 0 {
            }
        }
    }
}

/// The values of a run that was decoded have what `ok` says of every value
/// that `p` decodes.
pub proof fn lemma_parse_list_each<T>(
    p: spec_fn(Seq<u8>, int) -> Result<(T, int), Error>,
    ok: spec_fn(T) -> bool,
    bytes: Seq<u8>,
    pos: int,
    n: nat,
)
    requires
        parse_list(p, bytes, pos, n) is Ok,
        forall|at: int| #[trigger] p(bytes, at) is Ok ==> ok(p(bytes, at)->Ok_0.0),
    ensures
        parse_list(p, bytes, pos, n)->Ok_0.0.len() == n,
        forall|i: int| 0 <= i < n ==> ok(#[trigger] parse_list(p, bytes, pos, n)->Ok_0.0[i]),
    decreases n,
{
    if n > 0 {
        let (x, to) = p(bytes, pos)->Ok_0;
        lemma_parse_list_each(p, ok, bytes, to, (n - 1) as nat);
        let (rest, end) = parse_list(p, bytes, to, (n - 1) as nat)->Ok_0;
        let s = seq![x] + rest;
        assert forall|i: int| 0 <= i < n implies ok(#[trigger] s[i]) by {
            if i > 0 {
            }
        }
    }
}

/// The encoding of the first values of a run is no longer than that of the
/// run.
pub proof fn lemma_list_wire_prefix<T>(w: spec_fn(T) -> Seq<u8>, s: Seq<T>, i: int)
    requires
        0 <= i <= s.len(),
    ensures
        list_wire(w, s.take(i)).len() <= list_wire(w, s).len(),
    decreases s.len() - i,
{
    if i < s.len() {
        lemma_list_wire_push(w, s, i);
        lemma_list_wire_prefix(w, s, i + 1);
    } else {
        assert(s.take(i) =~= s);
    }
}

/// The rule by which a definition handle is encoded.
pub open spec fn nz_wire<A>() -> spec_fn(NzPoolIndex<A>) -> Seq<u8> {
    |x: NzPoolIndex<A>| le32(x@)
}

/// The rule by which a definition handle is decoded.
pub open spec fn nz_parser<A>() -> spec_fn(Seq<u8>, int) -> Result<(NzPoolIndex<A>, int), Error> {
    |bytes: Seq<u8>, pos: int| parse_nz::<A>(bytes, pos)
}

/// A list of definition handles, as bytes: their count and the handles.
pub open spec fn index_list_wire<A>(s: Seq<NzPoolIndex<A>>) -> Seq<u8> {
    le32(s.len() as u32) + list_wire(nz_wire::<A>(), s)
}

/// Whether the list's count fits in 32 bits.
pub open spec fn index_list_encodable<A>(s: Seq<NzPoolIndex<A>>) -> bool {
    s.len() <= u32::MAX
}

/// Whether executable code can hold the list and its count fits in 32 bits.
pub open spec fn index_list_wf<A>(s: Seq<NzPoolIndex<A>>) -> bool {
    &&& s.len() <= u32::MAX
    &&& forall|i: int| 0 <= i < s.len() ==> (#[trigger] s[i])@ != 0
}

/// The list of definition handles at `pos`, and the position after it.
pub open spec fn parse_index_list<A>(bytes: Seq<u8>, pos: int) -> Result<
    (Seq<NzPoolIndex<A>>, int),
    Error,
> {
    match parse_u32(bytes, pos) {
        Ok((count, to)) => parse_list(nz_parser::<A>(), bytes, to, count as nat),
        Err(e) => Err(e),
    }
}

/// A list of handles takes four bytes for its count and four for each.
pub proof fn lemma_index_list_len<A>(s: Seq<NzPoolIndex<A>>)
    ensures
        index_list_wire(s).len() == 4 + 4 * s.len(),
        list_wire(nz_wire::<A>(), s).len() == 4 * s.len(),
{
    lemma_le_len();
    lemma_list_wire_len(nz_wire::<A>(), s, 4);
}

/// The list of definition handles at `pos` and the position after it.
pub fn take_index_list<A>(bytes: &[u8], pos: usize) -> (r: Result<
    (Vec<NzPoolIndex<A>>, usize),
    Error,
>)
    ensures
        match parse_index_list::<A>(bytes@, pos as int) {
            Ok((s, to)) => r is Ok && r->Ok_0.0@ == s && r->Ok_0.1 == to,
            Err(e) => r == Err::<(Vec<NzPoolIndex<A>>, usize), Error>(e),
        },
{
    let (count, start) = take_u32(bytes, pos)?;
    let mut out: Vec<NzPoolIndex<A>> = Vec::new();
    let mut at: usize = start;
    let mut i: u32 = 0;
    proof {
        assert(Seq::<NzPoolIndex<A>>::empty() + parse_list(
            nz_parser::<A>(),
            bytes@,
            start as int,
            count as nat,
        )->Ok_0.0 =~= parse_list(nz_parser::<A>(), bytes@, start as int, count as nat)->Ok_0.0);
    }
    while i < count
        invariant
            i <= count,
            parse_u32(bytes@, pos as int) == Ok::<(u32, int), Error>((count, start as int)),
            resume(out@, parse_list(nz_parser::<A>(), bytes@, at as int, (count - i) as nat))
                == parse_list(nz_parser::<A>(), bytes@, start as int, count as nat),
        decreases count - i,
    {
        proof {
            lemma_resume_step(nz_parser::<A>(), bytes@, at as int, (count - i) as nat, out@);
        }
        let (x, to) = take_nz::<A>(bytes, at)?;
        out.push(x);
        at = to;
        i += 1;
    }
    proof {
        lemma_resume_done(nz_parser::<A>(), bytes@, at as int, out@);
    }
    Ok((out, at))
}

/// Lays a list of definition handles over the buffer at `pos`.
pub(crate) fn put_index_list<A>(bytes: &mut [u8], pos: usize, list: &Vec<NzPoolIndex<A>>) -> (r: Result<
    usize,
    Error,
>)
    requires
        index_list_encodable(list@),
        pos + index_list_wire(list@).len() <= old(bytes)@.len(),
    ensures
        laid(old(bytes)@, pos as int, index_list_wire(list@), r, final(bytes)@),
{
    proof {
        lemma_le_len();
        lemma_index_list_len(list@);
    }
    let n: usize = list.len();
    let mut at: usize = put_u32(bytes, pos, n as u32)?;
    let mut i: usize = 0;
    while i < n
        invariant
            i <= n,
            n == list@.len(),
            n <= u32::MAX,
            at == pos + 4 + 4 * i,
            pos + 4 + 4 * n <= bytes@.len(),
            bytes@.len() == old(bytes)@.len(),
            bytes@ == overlay(
                old(bytes)@,
                pos as int,
                le32(n as u32) + list_wire(nz_wire::<A>(), list@.take(i as int)),
            ),
        decreases n - i,
    {
        proof {
            lemma_le_len();
            lemma_index_list_len(list@.take(i as int));
            lemma_list_wire_push(nz_wire::<A>(), list@, i as int);
            lemma_overlay_concat(
                old(bytes)@,
                pos as int,
                le32(n as u32) + list_wire(nz_wire::<A>(), list@.take(i as int)),
                le32(list@[i as int]@),
            );
            assert(le32(n as u32) + list_wire(nz_wire::<A>(), list@.take(i as int)) + le32(
                list@[i as int]@,
            ) =~= le32(n as u32) + list_wire(nz_wire::<A>(), list@.take(i + 1)));
        }
        at = put_u32(bytes, at, list[i].value())?;
        i += 1;
    }
    proof {
        assert(list@.take(n as int) =~= list@);
    }
    Ok(at)
}

/// A list of definition handles that the buffer holds is read back.
pub proof fn lemma_parse_index_list_at<A>(bytes: Seq<u8>, pos: int, s: Seq<NzPoolIndex<A>>)
    requires
        holds_at(bytes, pos, index_list_wire(s)),
        index_list_wf(s),
    ensures
        parse_index_list::<A>(bytes, pos) == Ok::<(Seq<NzPoolIndex<A>>, int), Error>(
            (s, pos + index_list_wire(s).len()),
        ),
{
    broadcast use group_index;

    lemma_le_len();
    lemma_holds_at_concat(bytes, pos, le32(s.len() as u32), list_wire(nz_wire::<A>(), s));
    lemma_parse_u32_at(bytes, pos, s.len() as u32);
    assert forall|i: int, at: int|
        0 <= i < s.len() && #[trigger] holds_at(bytes, at, nz_wire::<A>()(s[i])) implies nz_parser::<
        A,
    >()(bytes, at) == Ok::<(NzPoolIndex<A>, int), Error>(
        (s[i], at + nz_wire::<A>()(s[i]).len()),
    ) by {
        lemma_parse_u32_at(bytes, at, s[i]@);
    }
    lemma_parse_list_at(nz_parser::<A>(), nz_wire::<A>(), bytes, pos + 4, s);
}

/// A list of definition handles that was decoded is one that executable code
/// can hold, and it ends where its encoding ends.
pub proof fn lemma_parse_index_list_wf<A>(bytes: Seq<u8>, pos: int)
    requires
        parse_index_list::<A>(bytes, pos) is Ok,
    ensures
        index_list_wf(parse_index_list::<A>(bytes, pos)->Ok_0.0),
        parse_index_list::<A>(bytes, pos)->Ok_0.1 == pos + index_list_wire(
            parse_index_list::<A>(bytes, pos)->Ok_0.0,
        ).len(),
{
    broadcast use group_index;

    lemma_le_len();
    let (count, to) = parse_u32(bytes, pos)->Ok_0;
    lemma_parse_list_ok(
        nz_parser::<A>(),
        nz_wire::<A>(),
        |x: NzPoolIndex<A>| x@ != 0,
        bytes,
        to,
        count as nat,
    );
}

/// The number of bytes that a list of definition handles takes, if its count
/// and that number fit in 32 bits.
pub fn measure_index_list<A>(list: &Vec<NzPoolIndex<A>>) -> (r: Option<u32>)
    ensures
        r == measured(index_list_encodable(list@), index_list_wire(list@).len()),
{
    proof {
        lemma_index_list_len(list@);
    }
    let n: usize = list.len();
    if n > 0x3FFF_FFFE {
        None
    } else {
        Some((4 + 4 * n) as u32)
    }
}

/// The values of `s` in the order of their first occurrence, each once.
pub open spec fn unique<T>(s: Seq<T>) -> Seq<T>
    decreases s.len(),
{
    if s.len() == 0 {
        Seq::empty()
    } else if unique(s.drop_last()).contains(s.last()) {
        unique(s.drop_last())
    } else {
        unique(s.drop_last()).push(s.last())
    }
}

/// What `unique` gives holds no value twice, and holds the values of `s` and
/// no others.
pub proof fn lemma_unique<T>(s: Seq<T>)
    ensures
        unique(s).no_duplicates(),
        unique(s).len() <= s.len(),
        forall|x: T| unique(s).contains(x) <==> s.contains(x),
    decreases s.len(),
{
    if s.len() > 0 {
        let init = s.drop_last();
        let u = unique(init);
        lemma_unique(init);
        let us = unique(s);
        assert forall|x: T| us.contains(x) <==> s.contains(x) by {
            if s.contains(x) {
                let i = choose|i: int| 0 <= i < s.len() && s[i] == x;
                if i < init.len() {
                    assert(init[i] == x);
                    assert(init.contains(x));
                    let k = choose|k: int| 0 <= k < u.len() && u[k] == x;
                    assert(us[k] == x);
                } else {
                    if !u.contains(s.last()) {
                        assert(us[u.len() as int] == x);
                    }
                }
            }
            if us.contains(x) {
                let k = choose|k: int| 0 <= k < us.len() && us[k] == x;
                if k < u.len() {
                    assert(init.contains(x));
                }
            }
        }
    }
}

/// A sequence that holds no value twice is its own `unique`.
pub proof fn lemma_unique_of_distinct<T>(s: Seq<T>)
    requires
        s.no_duplicates(),
    ensures
        unique(s) == s,
    decreases s.len(),
{
    if s.len() > 0 {
        let init = s.drop_last();
        lemma_unique_of_distinct(init);
    }
}

/// A run of `n` values of which each is decoded at its place, `width` bytes
/// behind the one before, is decoded as a whole.
pub proof fn lemma_parse_list_fixed<T>(
    p: spec_fn(Seq<u8>, int) -> Result<(T, int), Error>,
    bytes: Seq<u8>,
    pos: int,
    s: Seq<T>,
    width: int,
)
    requires
        forall|i: int|
            0 <= i < s.len() ==> #[trigger] p(bytes, pos + i * width) == Ok::<(T, int), Error>(
                (s[i], pos + (i + 1) * width),
            ),
    ensures
        parse_list(p, bytes, pos, s.len()) == Ok::<(Seq<T>, int), Error>((s, pos + s.len() * width)),
    decreases s.len(),
{
    if s.len() == 0 {
        assert(s =~= Seq::<T>::empty());
    } else {
        let rest = s.drop_first();
        assert(p(bytes, pos + 0 * width) == Ok::<(T, int), Error>((s[0], pos + (0 + 1) * width)));
        assert forall|i: int| 0 <= i < rest.len() implies #[trigger] p(
            bytes,
            (pos + width) + i * width,
        ) == Ok::<(T, int), Error>((rest[i], (pos + width) + (i + 1) * width)) by {
            assert((pos + width) + i * width == pos + (i + 1) * width) by (nonlinear_arith);
            assert((pos + width) + (i + 1) * width == pos + (i + 1 + 1) * width)
                by (nonlinear_arith);
            assert(p(bytes, pos + (i + 1) * width) == Ok::<(T, int), Error>(
                (s[i + 1], pos + (i + 1 + 1) * width),
            ));
        }
        lemma_parse_list_fixed(p, bytes, pos + width, rest, width);
        assert(seq![s[0]] + rest =~= s);
        assert((pos + width) + rest.len() * width == pos + s.len() * width) by (nonlinear_arith)
            requires
                rest.len() == s.len() - 1,
        ;
    }
}

/// The encoding of a run holds the encoding of each of its values, behind
/// the encodings of the values before it.
pub proof fn lemma_list_wire_at<T>(w: spec_fn(T) -> Seq<u8>, s: Seq<T>, k: int)
    requires
        0 <= k < s.len(),
    ensures
        holds_at(list_wire(w, s), list_wire(w, s.take(k)).len() as int, w(s[k])),
    decreases s.len() - k,
{
    lemma_list_wire_push(w, s, k);
    lemma_list_wire_prefix(w, s, k + 1);
    lemma_list_wire_holds_prefix(w, s, k + 1);
    lemma_holds_at_concat(list_wire(w, s), 0, list_wire(w, s.take(k)), w(s[k]));
}

/// The encoding of a run starts with the encoding of its first values.
pub proof fn lemma_list_wire_holds_prefix<T>(w: spec_fn(T) -> Seq<u8>, s: Seq<T>, k: int)
    requires
        0 <= k <= s.len(),
    ensures
        holds_at(list_wire(w, s), 0, list_wire(w, s.take(k))),
    decreases s.len() - k,
{
    if k == s.len() {
        assert(s.take(k) =~= s);
        assert(list_wire(w, s).subrange(0, list_wire(w, s).len() as int) =~= list_wire(w, s));
    } else {
        lemma_list_wire_holds_prefix(w, s, k + 1);
        lemma_list_wire_push(w, s, k);
        lemma_holds_at_concat(list_wire(w, s), 0, list_wire(w, s.take(k)), w(s[k]));
    }
}

} // verus!
