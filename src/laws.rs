//! Properties of the rewriting, stated over the field grammar.
use vstd::prelude::*;
use crate::field::{
    emit_field, emit_fields, emitted_comma, emitted_type, vis_toks, wrapper_close, wrapper_open,
    FieldView, VisView,
};
use crate::grammar::{
    declaration_fields, find_block, group_body, ident_text, is_marker_group,
    lemma_scan_attrs_bounds, lemma_scan_field_progress, lemma_scan_type_bounds, scan_attrs,
    scan_field, scan_fields, scan_type, scan_vis, spacing_of, AttrScan, BlockScan, FieldScan,
    ErrorView, TypeScan, VisScan,
};
use crate::token::{is_group, is_ident, is_punct, toks, Delimiter, Spacing, Tok, TokenTree};
use crate::transform::rewritten;

verus! {

/// Without the marker, the attributes kept are exactly the tokens read.
proof fn lemma_attrs_unmarked(s: Seq<Tok>, i: int, attrs: Seq<Tok>)
    requires
        0 <= i,
        scan_attrs(s, i, attrs, false) matches AttrScan::Stop(_, _, m) && !m,
    ensures
        scan_attrs(s, i, attrs, false) matches AttrScan::Stop(p, a, _) && a == attrs
            + s.subrange(i, p),
    decreases s.len() - i,
{
    lemma_scan_attrs_bounds(s, i, attrs, false);
    if is_punct(s[i], '#') {
        let attrs2 = attrs + seq![s[i], s[i + 1]];
        if is_marker_group(s[i + 1]) {
            lemma_attrs_after_marker(s, i + 2, attrs);
        }
        lemma_attrs_unmarked(s, i + 2, attrs2);
        lemma_scan_attrs_bounds(s, i + 2, attrs2, false);
        let p = scan_attrs(s, i + 2, attrs2, false)->Stop_0;
        assert(attrs2 + s.subrange(i + 2, p) =~= attrs + s.subrange(i, p));
    } else {
        assert(s.subrange(i, i) =~= Seq::<Tok>::empty());
        assert(attrs + Seq::<Tok>::empty() =~= attrs);
    }
}

/// Once the marker has been seen, the attributes kept are the tokens read.
proof fn lemma_attrs_after_marker(s: Seq<Tok>, i: int, attrs: Seq<Tok>)
    requires
        0 <= i,
        scan_attrs(s, i, attrs, true) is Stop,
    ensures
        scan_attrs(s, i, attrs, true) matches AttrScan::Stop(p, a, m) && m && a == attrs
            + s.subrange(i, p),
    decreases s.len() - i,
{
    lemma_scan_attrs_bounds(s, i, attrs, true);
    if is_punct(s[i], '#') {
        let attrs2 = attrs + seq![s[i], s[i + 1]];
        lemma_attrs_after_marker(s, i + 2, attrs2);
        lemma_scan_attrs_bounds(s, i + 2, attrs2, true);
        let p = scan_attrs(s, i + 2, attrs2, true)->Stop_0;
        assert(attrs2 + s.subrange(i + 2, p) =~= attrs + s.subrange(i, p));
    } else {
        assert(s.subrange(i, i) =~= Seq::<Tok>::empty());
        assert(attrs + Seq::<Tok>::empty() =~= attrs);
    }
}

/// With the marker, the attributes kept are the tokens read less the one
/// marker attribute at some position `q`.
proof fn lemma_attrs_marked(s: Seq<Tok>, i: int, attrs: Seq<Tok>) -> (q: int)
    requires
        0 <= i,
        scan_attrs(s, i, attrs, false) matches AttrScan::Stop(_, _, m) && m,
    ensures
        scan_attrs(s, i, attrs, false) matches AttrScan::Stop(p, a, _) && i <= q && q + 2 <= p
            && is_punct(s[q], '#') && is_marker_group(s[q + 1]) && a == attrs + s.subrange(i, q)
            + s.subrange(q + 2, p),
    decreases s.len() - i,
{
    lemma_scan_attrs_bounds(s, i, attrs, false);
    if is_marker_group(s[i + 1]) {
        lemma_attrs_after_marker(s, i + 2, attrs);
        lemma_scan_attrs_bounds(s, i + 2, attrs, true);
        assert(s.subrange(i, i) =~= Seq::<Tok>::empty());
        assert(attrs + s.subrange(i, i) =~= attrs);
        i
    } else {
        let attrs2 = attrs + seq![s[i], s[i + 1]];
        let q = lemma_attrs_marked(s, i + 2, attrs2);
        assert(attrs2 + s.subrange(i + 2, q) =~= attrs + s.subrange(i, q));
        q
    }
}

/// The tokens of a visibility are those it was read from.
proof fn lemma_vis_tokens(s: Seq<Tok>, p: int)
    requires
        0 <= p < s.len(),
        scan_vis(s, p) is Got,
    ensures
        scan_vis(s, p) matches VisScan::Got(v, j) && p <= j <= s.len() && s.subrange(p, j)
            == vis_toks(v),
{
    if is_ident(s[p], "pub"@) {
        let j = scan_vis(s, p)->Got_1;
        assert(s.subrange(p, j) =~= vis_toks(scan_vis(s, p)->Got_0));
    } else {
        assert(s.subrange(p, p) =~= Seq::<Tok>::empty());
    }
}

/// How a field that was read lies in the tokens: its attribute run ends at
/// `p`, the tokens from `p` up to the type are its visibility, name and
/// colon, and its type tokens follow, then its comma if it has one.
proof fn lemma_field_layout(s: Seq<Tok>, i: int) -> (p: int)
    requires
        0 <= i,
        scan_field(s, i) is Got,
    ensures
        scan_field(s, i) matches FieldScan::Got(f, next) && ({
            let t = next - f.ty.len() - (if f.comma is Some { 1int } else { 0 });
            &&& scan_attrs(s, i, Seq::empty(), false) matches AttrScan::Stop(p2, a, m) && p2 == p
                && a == f.attrs && m == f.unsafety
            &&& i <= p <= t <= next <= s.len()
            &&& s.subrange(p, t) == vis_toks(f.vis) + seq![Tok::Ident(f.name), f.colon]
            &&& s.subrange(t, t + f.ty.len()) == f.ty
            &&& (f.comma is Some ==> s[next - 1] == emitted_comma(f))
            &&& (f.comma is None ==> next == s.len())
        }),
{
    lemma_scan_attrs_bounds(s, i, Seq::empty(), false);
    let p = scan_attrs(s, i, Seq::empty(), false)->Stop_0;
    lemma_vis_tokens(s, p);
    let j = scan_vis(s, p)->Got_1;
    lemma_scan_type_bounds(s, j + 2, 0);
    let f = scan_field(s, i)->Got_0;
    let end = scan_type(s, j + 2, 0)->Got_0;
    let next = scan_type(s, j + 2, 0)->Got_1;
    assert(f.ty.len() == end - (j + 2));
    assert(s[j] == Tok::Ident(ident_text(s[j])));
    assert(s.subrange(p, j + 2) =~= s.subrange(p, j) + seq![s[j], s[j + 1]]);
    if next > end {
        assert(s[end] == Tok::Punct(',', spacing_of(s[end])));
    }
    p
}

/// The comma that writing back adds to fields `fs`: one after the last
/// field when that field has none of its own.
pub open spec fn added_comma(fs: Seq<FieldView>) -> Seq<Tok> {
    if fs.len() > 0 && fs.last().comma is None {
        seq![Tok::Punct(',', Spacing::Alone)]
    } else {
        Seq::empty()
    }
}

/// A field read without the marker is written back as the very tokens it
/// was read from, plus a comma if it had none (then it ends the block).
proof fn lemma_unmarked_field_kept(s: Seq<Tok>, i: int)
    requires
        0 <= i,
        scan_field(s, i) matches FieldScan::Got(f, _) && !f.unsafety,
    ensures
        scan_field(s, i) matches FieldScan::Got(f, next) && emit_field(f) == s.subrange(i, next)
            + added_comma(seq![f]) && (f.comma is None ==> next == s.len()),
{
    let p = lemma_field_layout(s, i);
    lemma_attrs_unmarked(s, i, Seq::empty());
    let f = scan_field(s, i)->Got_0;
    let next = scan_field(s, i)->Got_1;
    let t = next - f.ty.len() - (if f.comma is Some { 1int } else { 0 });
    assert(seq![f].last() == f);
    assert(Seq::<Tok>::empty() + s.subrange(i, p) =~= s.subrange(i, p));
    if f.comma is Some {
        assert(s.subrange(i, next) =~= s.subrange(i, p) + s.subrange(p, t) + s.subrange(
            t,
            t + f.ty.len(),
        ) + seq![s[next - 1]]);
        assert(emit_field(f) =~= s.subrange(i, next) + added_comma(seq![f]));
    } else {
        assert(s.subrange(i, next) =~= s.subrange(i, p) + s.subrange(p, t) + s.subrange(
            t,
            t + f.ty.len(),
        ));
        assert(emit_field(f) =~= s.subrange(i, next) + added_comma(seq![f]));
    }
}

/// Whether no field carries the marker.
pub open spec fn none_marked(fs: Seq<FieldView>) -> bool {
    forall|k: int| 0 <= k < fs.len() ==> !(#[trigger] fs[k]).unsafety
}

/// The fields read from position `i` on, all unmarked, are written back as
/// the tokens from `i` on, plus a comma after the last one if it had none.
proof fn lemma_fields_kept(s: Seq<Tok>, i: int)
    requires
        0 <= i <= s.len(),
        scan_fields(s, i) matches Ok(fs) && none_marked(fs),
    ensures
        scan_fields(s, i) matches Ok(fs) && emit_fields(fs) == s.skip(i) + added_comma(fs),
    decreases s.len() - i,
{
    lemma_scan_field_progress(s, i);
    match scan_field(s, i) {
        FieldScan::End => {
            lemma_scan_attrs_bounds(s, i, Seq::empty(), false);
            assert(s.skip(i) =~= Seq::<Tok>::empty());
            assert(s.skip(i) + Seq::<Tok>::empty() =~= Seq::<Tok>::empty());
        },
        FieldScan::Fail(_) => {},
        FieldScan::Got(f, next) => {
            assert(scan_fields(s, next) is Ok);
            let rest = scan_fields(s, next)->Ok_0;
            let fs = seq![f] + rest;
            assert(scan_fields(s, i) == Ok::<Seq<FieldView>, ErrorView>(fs));
            assert(fs[0] == f);
            assert(!fs[0].unsafety);
            assert(forall|k: int| 0 <= k < rest.len() ==> rest[k] == fs[k + 1]);
            assert(none_marked(rest));
            lemma_fields_kept(s, next);
            lemma_unmarked_field_kept(s, i);
            assert(fs.skip(1) =~= rest);
            assert(s.skip(i) =~= s.subrange(i, next) + s.skip(next));
            if f.comma is None {
                lemma_scan_attrs_bounds(s, next, Seq::empty(), false);
                assert(scan_field(s, next) is End);
                assert(rest =~= Seq::<FieldView>::empty());
                assert(fs =~= seq![f]);
                assert(s.skip(next) =~= Seq::<Tok>::empty());
                assert(emit_fields(fs) =~= emit_field(f) + Seq::<Tok>::empty());
                assert(emit_fields(fs) =~= s.skip(i) + added_comma(fs));
            } else {
                assert(added_comma(seq![f]) =~= Seq::<Tok>::empty());
                if rest.len() > 0 {
                    assert(fs.last() == rest.last());
                }
                assert(added_comma(fs) == added_comma(rest));
                assert(emit_fields(fs) =~= s.skip(i) + added_comma(fs));
            }
        },
    }
}

/// Pass-through: when no field of a declaration carries the marker, its
/// rewriting `out` (as `unsafe_fields` returns it) holds the same tokens:
/// the same ones around the field block, and the same ones inside it, but
/// for a comma added after a last field written without one.
pub proof fn lemma_pass_through(s: Seq<Tok>, out: Seq<TokenTree>)
    requires
        declaration_fields(s) matches Ok(fs) && none_marked(fs) && rewritten(s, out, fs),
    ensures
        find_block(s, 0) matches BlockScan::At(b) && declaration_fields(s) matches Ok(fs) && {
            &&& out.len() == s.len()
            &&& toks(out).take(b) == s.take(b)
            &&& toks(out).skip(b + 1) == s.skip(b + 1)
            &&& is_group(out[b]@, Delimiter::Brace) && is_group(s[b], Delimiter::Brace)
            &&& toks(group_body(out[b]@)) == toks(group_body(s[b])) + added_comma(fs)
        },
{
    let b = find_block(s, 0)->At_0;
    let bs = toks(group_body(s[b]));
    lemma_fields_kept(bs, 0);
    assert(bs.skip(0) =~= bs);
    lemma_block_is_brace(s, 0);
}

/// The block that is found is a brace-delimited group.
proof fn lemma_block_is_brace(s: Seq<Tok>, i: int)
    requires
        0 <= i,
    ensures
        find_block(s, i) matches BlockScan::At(b) ==> i <= b < s.len() && is_group(
            s[b],
            Delimiter::Brace,
        ),
    decreases s.len() - i,
{
    if i < s.len() {
        lemma_block_is_brace(s, i + 1);
    }
}

/// Local rewrite: a field read with the marker is written back as the tokens
/// it was read from, less the marker attribute, with its type tokens between
/// `::unsafe_fields::UnsafeField<` and `>`, and ended by a comma.
pub proof fn lemma_marked_field_rewrite(s: Seq<Tok>, i: int) -> (q: int)
    requires
        0 <= i,
        scan_field(s, i) matches FieldScan::Got(f, _) && f.unsafety,
    ensures
        scan_field(s, i) matches FieldScan::Got(f, next) && ({
            let t = next - f.ty.len() - (if f.comma is Some { 1int } else { 0 });
            &&& i <= q && q + 2 <= t
            &&& is_punct(s[q], '#') && is_marker_group(s[q + 1])
            &&& s.subrange(t, t + f.ty.len()) == f.ty
            &&& (f.comma is Some ==> s[next - 1] == emitted_comma(f))
            &&& emit_field(f) == s.subrange(i, q) + s.subrange(q + 2, t) + wrapper_open() + f.ty
                + wrapper_close() + seq![emitted_comma(f)]
        }),
{
    let p = lemma_field_layout(s, i);
    let q = lemma_attrs_marked(s, i, Seq::empty());
    let f = scan_field(s, i)->Got_0;
    let next = scan_field(s, i)->Got_1;
    let t = next - f.ty.len() - (if f.comma is Some { 1int } else { 0 });
    assert(Seq::<Tok>::empty() + s.subrange(i, q) =~= s.subrange(i, q));
    assert(s.subrange(q + 2, t) =~= s.subrange(q + 2, p) + s.subrange(p, t));
    assert(emit_field(f) =~= s.subrange(i, q) + s.subrange(q + 2, t) + wrapper_open() + f.ty
        + wrapper_close() + seq![emitted_comma(f)]);
    q
}

/// Order: the fields are written back one after the other, in the order
/// they were read; the `k`-th one stands after the first `k`.
pub proof fn lemma_order_kept(fs: Seq<FieldView>, k: int)
    requires
        0 <= k < fs.len(),
    ensures
        emit_fields(fs) == emit_fields(fs.take(k)) + emit_field(fs[k]) + emit_fields(
            fs.skip(k + 1),
        ),
    decreases k,
{
    if k == 0 {
        assert(fs.take(0) =~= Seq::<FieldView>::empty());
        assert(emit_fields(Seq::<FieldView>::empty()) + emit_field(fs[0]) =~= emit_field(fs[0]));
    } else {
        let tail = fs.skip(1);
        lemma_order_kept(tail, k - 1);
        assert(tail.take(k - 1) =~= fs.take(k).skip(1));
        assert(fs.take(k)[0] == fs[0]);
        assert(tail.skip(k) =~= fs.skip(k + 1));
        assert(tail[k - 1] == fs[k]);
        assert(emit_fields(fs.take(k)) == emit_field(fs[0]) + emit_fields(fs.take(k).skip(1)));
    }
}

/// Every field is written back ending with a comma.
pub proof fn lemma_field_ends_with_comma(f: FieldView)
    ensures
        emit_field(f).last() matches Tok::Punct(c, _) && c == ',',
{
}

/// The wrapper is named by an absolute path, starting with `::` and the
/// library's own name, so no name in scope where the record stands can
/// change what it refers to.
pub proof fn lemma_wrapper_path_absolute()
    ensures
        wrapper_open().take(3) == seq![
            Tok::Punct(':', Spacing::Joint),
            Tok::Punct(':', Spacing::Alone),
            Tok::Ident("unsafe_fields"@),
        ],
{
    assert(wrapper_open().take(3) =~= seq![
        Tok::Punct(':', Spacing::Joint),
        Tok::Punct(':', Spacing::Alone),
        Tok::Ident("unsafe_fields"@),
    ]);
}

/// The rewriting is syntactic: a marked field whose type is already
/// `::unsafe_fields::UnsafeField<T>` is wrapped once more.
pub proof fn lemma_wrap_not_idempotent(f: FieldView, t: Seq<Tok>)
    requires
        f.unsafety,
        f.ty == wrapper_open() + t + wrapper_close(),
    ensures
        emitted_type(f) == wrapper_open() + wrapper_open() + t + wrapper_close() + wrapper_close(),
{
    assert(emitted_type(f) =~= wrapper_open() + wrapper_open() + t + wrapper_close()
        + wrapper_close());
}

/// Where the `k`-th field read from position `i` on starts.
proof fn lemma_field_position(s: Seq<Tok>, i: int, k: int) -> (j: int)
    requires
        0 <= i <= s.len(),
        scan_fields(s, i) matches Ok(fs) && 0 <= k < fs.len(),
    ensures
        i <= j,
        scan_field(s, j) matches FieldScan::Got(f, _) && f == scan_fields(s, i)->Ok_0[k],
    decreases k,
{
    lemma_scan_field_progress(s, i);
    let f = scan_field(s, i)->Got_0;
    let next = scan_field(s, i)->Got_1;
    assert(scan_fields(s, next) is Ok);
    let rest = scan_fields(s, next)->Ok_0;
    assert(scan_fields(s, i) == Ok::<Seq<FieldView>, ErrorView>(seq![f] + rest));
    if k == 0 {
        i
    } else {
        assert((seq![f] + rest)[k] == rest[k - 1]);
        lemma_field_position(s, next, k - 1)
    }
}

/// Local rewrite, in the output of `unsafe_fields`: the `k`-th field of the
/// block, when marked, is written back after the first `k` fields as the
/// tokens it was read from (starting at `pos.0`), less its marker attribute
/// (at `pos.1`), with its type tokens (at `pos.2`) between
/// `::unsafe_fields::UnsafeField<` and `>`, and ended by a comma.
pub proof fn lemma_local_rewrite(s: Seq<Tok>, out: Seq<TokenTree>, k: int) -> (pos: (int, int, int))
    requires
        declaration_fields(s) matches Ok(fs) && rewritten(s, out, fs) && 0 <= k < fs.len()
            && fs[k].unsafety,
    ensures
        find_block(s, 0) matches BlockScan::At(b) && declaration_fields(s) matches Ok(fs) && ({
            let bs = toks(group_body(s[b]));
            let ob = toks(group_body(out[b]@));
            let f = fs[k];
            let at = emit_fields(fs.take(k)).len() as int;
            &&& scan_field(bs, pos.0) matches FieldScan::Got(g, _) && g == f
            &&& 0 <= pos.0 <= pos.1 && pos.1 + 2 <= pos.2 && pos.2 + f.ty.len() <= bs.len()
            &&& is_punct(bs[pos.1], '#') && is_marker_group(bs[pos.1 + 1])
            &&& bs.subrange(pos.2, pos.2 + f.ty.len()) == f.ty
            &&& ob.subrange(at, at + emit_field(f).len() as int) == bs.subrange(pos.0, pos.1)
                + bs.subrange(pos.1 + 2, pos.2) + wrapper_open() + f.ty + wrapper_close()
                + seq![emitted_comma(f)]
        }),
{
    let b = find_block(s, 0)->At_0;
    let bs = toks(group_body(s[b]));
    let fs = declaration_fields(s)->Ok_0;
    let i = lemma_field_position(bs, 0, k);
    lemma_field_layout(bs, i);
    let q = lemma_marked_field_rewrite(bs, i);
    let next = scan_field(bs, i)->Got_1;
    let f = fs[k];
    let t = next - f.ty.len() - (if f.comma is Some { 1int } else { 0 });
    lemma_order_kept(fs, k);
    let a = emit_fields(fs.take(k));
    assert((a + emit_field(f) + emit_fields(fs.skip(k + 1))).subrange(
        a.len() as int,
        a.len() + emit_field(f).len() as int,
    ) =~= emit_field(f));
    (i, q, t)
}

} // verus!
