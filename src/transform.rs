//! Rewriting a record declaration.
use vstd::prelude::*;
use crate::field::{emit_fields, Field, FieldView, Pub, VisRestricted, Visibility};
use crate::grammar::{
    declaration_fields, find_block, group_body, is_marker_body, lemma_scan_attrs_bounds,
    lemma_scan_field_progress, lemma_scan_type_bounds, scan_attrs, scan_field, scan_fields,
    scan_type, scan_vis, spacing_of, AttrScan, BlockScan, FieldScan, TransformError, TypeScan,
    VisScan,
};
use crate::token::{
    ident_is, is_group, is_ident, is_punct, lemma_toks_add, lemma_toks_push, toks, Delimiter,
    Group, Ident, Punct, Spacing, Tok, TokenTree,
};

verus! {

/// Whether the first token of `s` is the identifier `text`.
fn front_is_ident(s: &Vec<TokenTree>, text: &str) -> (r: bool)
    ensures
        r == (s@.len() > 0 && is_ident(s@[0]@, text@)),
{
    if s.len() == 0 {
        false
    } else {
        match &s[0] {
            TokenTree::Ident(id) => ident_is(id, text),
            _ => false,
        }
    }
}

/// Whether the first token of `s` is a group with delimiter `d`.
fn front_is_group(s: &Vec<TokenTree>, d: Delimiter) -> (r: bool)
    ensures
        r == (s@.len() > 0 && is_group(s@[0]@, d)),
{
    if s.len() == 0 {
        false
    } else {
        match &s[0] {
            TokenTree::Group(g) => g.delimiter == d,
            _ => false,
        }
    }
}

/// Whether the first token of `s` is the punctuation `ch`.
fn front_is_punct(s: &Vec<TokenTree>, ch: char) -> (r: bool)
    ensures
        r == (s@.len() > 0 && is_punct(s@[0]@, ch)),
{
    if s.len() == 0 {
        false
    } else {
        match &s[0] {
            TokenTree::Punct(p) => p.ch == ch,
            _ => false,
        }
    }
}

/// Whether the first token of `s` is an identifier.
fn front_is_any_ident(s: &Vec<TokenTree>) -> (r: bool)
    ensures
        r == (s@.len() > 0 && s@[0]@ is Ident),
{
    if s.len() == 0 {
        false
    } else {
        match &s[0] {
            TokenTree::Ident(_) => true,
            _ => false,
        }
    }
}

/// Removes the first token of `s`.
fn take_front(s: &mut Vec<TokenTree>) -> (r: TokenTree)
    requires
        old(s)@.len() > 0,
    ensures
        r == old(s)@[0],
        final(s)@ == old(s)@.skip(1),
        toks(final(s)@) == toks(old(s)@).skip(1),
{
    let t = s.remove(0);
    assert(s@ =~= old(s)@.skip(1));
    assert(toks(s@) =~= toks(old(s)@).skip(1));
    t
}

/// Removes the identifier at the front of `s`.
fn take_ident(s: &mut Vec<TokenTree>) -> (r: Ident)
    requires
        old(s)@.len() > 0,
        old(s)@[0]@ is Ident,
    ensures
        old(s)@[0] == TokenTree::Ident(r),
        toks(final(s)@) == toks(old(s)@).skip(1),
{
    match take_front(s) {
        TokenTree::Ident(id) => id,
        _ => Ident { text: String::new() },
    }
}

/// Removes the group at the front of `s`.
fn take_group(s: &mut Vec<TokenTree>) -> (r: Group)
    requires
        old(s)@.len() > 0,
        old(s)@[0]@ is Group,
    ensures
        old(s)@[0] == TokenTree::Group(r),
        toks(final(s)@) == toks(old(s)@).skip(1),
{
    match take_front(s) {
        TokenTree::Group(g) => g,
        _ => Group { delimiter: Delimiter::Invisible, stream: Vec::new() },
    }
}

/// Removes the punctuation at the front of `s`.
fn take_punct(s: &mut Vec<TokenTree>) -> (r: Punct)
    requires
        old(s)@.len() > 0,
        old(s)@[0]@ is Punct,
    ensures
        old(s)@[0] == TokenTree::Punct(r),
        toks(final(s)@) == toks(old(s)@).skip(1),
{
    match take_front(s) {
        TokenTree::Punct(p) => p,
        _ => Punct { ch: ' ', spacing: Spacing::Alone },
    }
}

/// Whether an attribute body is exactly the marker `unsafe_field`.
fn is_marker(g: &Group) -> (r: bool)
    ensures
        r == is_marker_body(g.stream@),
{
    if g.stream.len() == 1 {
        match &g.stream[0] {
            TokenTree::Ident(id) => ident_is(id, "unsafe_field"),
            _ => false,
        }
    } else {
        false
    }
}

/// The token at the front of a suffix of `block` is the one at its start.
proof fn lemma_front(s: Seq<TokenTree>, block: Seq<Tok>, k: int)
    requires
        0 <= k <= block.len(),
        toks(s) == block.skip(k),
    ensures
        s.len() == block.len() - k,
        s.len() > 0 ==> s[0]@ == block[k],
        s.len() > 0 ==> toks(s).skip(1) == block.skip(k + 1),
{
    assert(toks(s).len() == s.len());
    assert(block.skip(k).len() == block.len() - k);
    if s.len() > 0 {
        assert(toks(s)[0] == s[0]@);
        assert(block.skip(k)[0] == block[k]);
        assert(toks(s).skip(1) =~= block.skip(k + 1));
    }
}

/// Reads the attributes of a field from the front of `s`, which holds the
/// tokens of `block` from position `i` on.
fn parse_attrs(s: &mut Vec<TokenTree>, Ghost(block): Ghost<Seq<Tok>>, Ghost(i): Ghost<int>) -> (r:
    Result<Option<(Vec<TokenTree>, bool)>, TransformError>)
    requires
        0 <= i <= block.len(),
        toks(old(s)@) == block.skip(i),
    ensures
        match scan_attrs(block, i, Seq::empty(), false) {
            AttrScan::End => r matches Ok(None) && toks(final(s)@) == block.skip(i),
            AttrScan::Fail(e) => r matches Err(x) && x@ == e,
            AttrScan::Stop(p, attrs, marked) => r matches Ok(Some((a, m))) && toks(a@) == attrs
                && m == marked && toks(final(s)@) == block.skip(p),
        },
{
    let mut attrs: Vec<TokenTree> = Vec::new();
    let mut unsafety = false;
    let ghost mut k = i;
    assert(toks(attrs@) =~= Seq::<Tok>::empty());
    proof {
        lemma_scan_attrs_bounds(block, i, Seq::empty(), false);
    }
    loop
        invariant
            0 <= i <= k <= block.len(),
            toks(s@) == block.skip(k),
            scan_attrs(block, i, Seq::empty(), false) is End ==> i >= block.len(),
            scan_attrs(block, i, Seq::empty(), false) == scan_attrs(
                block,
                k,
                toks(attrs@),
                unsafety,
            ),
        decreases s@.len(),
    {
        proof {
            lemma_front(s@, block, k);
        }
        if s.len() == 0 {
            if attrs.len() == 0 && !unsafety {
                return Ok(None);
            } else {
                return Err(TransformError::PrematureEnd);
            }
        }
        if front_is_any_ident(s) {
            return Ok(Some((attrs, unsafety)));
        }
        if !front_is_punct(s, '#') {
            return Err(TransformError::UnexpectedToken(take_front(s)));
        }
        let hash = take_front(s);
        proof {
            lemma_front(s@, block, k + 1);
        }
        if s.len() == 0 {
            return Err(TransformError::AttributeShape(None));
        }
        if !front_is_group(s, Delimiter::Bracket) {
            return Err(TransformError::AttributeShape(Some(take_front(s))));
        }
        let body = take_group(s);
        if is_marker(&body) {
            if unsafety {
                return Err(TransformError::DuplicateMarker);
            }
            unsafety = true;
        } else {
            let ghost before = toks(attrs@);
            proof {
                lemma_toks_push(attrs@, hash);
            }
            attrs.push(hash);
            let b = TokenTree::Group(body);
            proof {
                lemma_toks_push(attrs@, b);
            }
            attrs.push(b);
            assert(toks(attrs@) =~= before + seq![block[k], block[k + 1]]);
        }
        proof {
            k = k + 2;
        }
        assert(toks(s@) =~= block.skip(k));
        proof {
            lemma_front(s@, block, k);
        }
    }
}

/// Reads the type tokens of a field, and the comma after them, from the
/// front of `s`, which holds the tokens of `block` from position `k0` on.
fn parse_type(s: &mut Vec<TokenTree>, Ghost(block): Ghost<Seq<Tok>>, Ghost(k0): Ghost<int>) -> (r:
    Result<(Vec<TokenTree>, Option<Spacing>), TransformError>)
    requires
        1 <= k0 <= block.len(),
        is_punct(block[k0 - 1], ':'),
        toks(old(s)@) == block.skip(k0),
    ensures
        match scan_type(block, k0, 0) {
            TypeScan::Fail(e) => r matches Err(x) && x@ == e,
            TypeScan::Got(end, next) => r matches Ok((ty, comma)) && toks(ty@) == block.subrange(
                k0,
                end,
            ) && comma == (if next > end {
                Some(spacing_of(block[end]))
            } else {
                None
            }) && toks(final(s)@) == block.skip(next),
        },
{
    let mut ty: Vec<TokenTree> = Vec::new();
    let mut depth: usize = 0;
    let mut after_joint_minus = false;
    let ghost mut k = k0;
    let n0 = s.len();
    proof {
        lemma_front(s@, block, k0);
    }
    assert(toks(ty@) =~= block.subrange(k0, k0));
    loop
        invariant
            0 <= k0 <= k <= block.len(),
            toks(s@) == block.skip(k),
            toks(ty@) == block.subrange(k0, k),
            depth <= k - k0,
            after_joint_minus == (k >= 1 && block[k - 1] == Tok::Punct('-', Spacing::Joint)),
            block.len() - k0 == n0,
            scan_type(block, k0, 0) == scan_type(block, k, depth as nat),
        decreases s@.len(),
    {
        proof {
            lemma_front(s@, block, k);
        }
        if s.len() == 0 {
            return Ok((ty, None));
        }
        let t = take_front(s);
        let (is_comma, is_open, is_close, is_joint_minus, sp) = match &t {
            TokenTree::Punct(p) => (
                p.ch == ',',
                p.ch == '<',
                p.ch == '>' && !after_joint_minus,
                p.ch == '-' && p.spacing == Spacing::Joint,
                p.spacing,
            ),
            _ => (false, false, false, false, Spacing::Alone),
        };
        after_joint_minus = is_joint_minus;
        if is_comma && depth == 0 {
            return Ok((ty, Some(sp)));
        }
        if is_open {
            depth = depth + 1;
        } else if is_close {
            if depth == 0 {
                return Err(TransformError::UnexpectedToken(t));
            }
            depth = depth - 1;
        }
        proof {
            lemma_toks_push(ty@, t);
        }
        ty.push(t);
        proof {
            k = k + 1;
        }
        assert(toks(ty@) =~= block.subrange(k0, k));
    }
}

/// Reads one field from the front of `s`, which holds the tokens of `block`
/// from position `i` on.
fn parse_field(s: &mut Vec<TokenTree>, Ghost(block): Ghost<Seq<Tok>>, Ghost(i): Ghost<int>) -> (r:
    Result<Option<Field>, TransformError>)
    requires
        0 <= i <= block.len(),
        toks(old(s)@) == block.skip(i),
    ensures
        match scan_field(block, i) {
            FieldScan::End => r matches Ok(None) && toks(final(s)@) == block.skip(i),
            FieldScan::Fail(e) => r matches Err(x) && x@ == e,
            FieldScan::Got(f, next) => r matches Ok(Some(x)) && x@ == f && toks(final(s)@)
                == block.skip(next),
        },
{
    proof {
        lemma_scan_attrs_bounds(block, i, Seq::empty(), false);
    }
    let (attrs, unsafety) = match parse_attrs(s, Ghost(block), Ghost(i)) {
        Err(e) => {
            return Err(e);
        },
        Ok(None) => {
            return Ok(None);
        },
        Ok(Some(x)) => x,
    };
    let ghost p = scan_attrs(block, i, Seq::empty(), false)->Stop_0;
    let ghost mut k = p;
    let mut vis = Visibility::Inherited;
    let mut has_vis = false;
    proof {
        lemma_front(s@, block, k);
    }
    if front_is_ident(s, "pub") {
        let pub_ident = take_ident(s);
        proof {
            k = k + 1;
            lemma_front(s@, block, k);
        }
        if s.len() == 0 {
            return Err(TransformError::PrematureEnd);
        }
        if front_is_group(s, Delimiter::Parenthesis) {
            let g = take_group(s);
            proof {
                k = k + 1;
                lemma_front(s@, block, k);
            }
            vis = Visibility::Restricted(
                VisRestricted { pub_token: Pub { ident: pub_ident }, restrict: g },
            );
        } else {
            vis = Visibility::Public(Pub { ident: pub_ident });
        }
        has_vis = true;
    }
    assert(scan_vis(block, p) == VisScan::Got(vis@, k));
    if has_vis && front_is_ident(s, "pub") {
        return Err(TransformError::DuplicateVisibility);
    }
    if s.len() == 0 {
        return Err(TransformError::PrematureEnd);
    }
    if !front_is_any_ident(s) {
        return Err(TransformError::UnexpectedToken(take_front(s)));
    }
    let ident = take_ident(s);
    proof {
        lemma_front(s@, block, k + 1);
    }
    if s.len() == 0 {
        return Err(TransformError::PrematureEnd);
    }
    if !front_is_punct(s, ':') {
        return Err(TransformError::UnexpectedToken(take_front(s)));
    }
    let colon = take_punct(s);
    proof {
        lemma_front(s@, block, k + 2);
        lemma_scan_type_bounds(block, k + 2, 0);
    }
    let (ty, comma) = match parse_type(s, Ghost(block), Ghost(k + 2)) {
        Err(e) => {
            return Err(e);
        },
        Ok(x) => x,
    };
    let f = Field { attrs, vis, unsafety, ident, colon, ty, comma };
    Ok(Some(f))
}

/// The result of rewriting the declaration `s` with fields `fs`: the tokens
/// before and after the field block are those of `s`, and the field block
/// holds the fields as written back.
pub open spec fn rewritten(s: Seq<Tok>, out: Seq<TokenTree>, fs: Seq<FieldView>) -> bool {
    let b = find_block(s, 0)->At_0;
    &&& out.len() == s.len()
    &&& toks(out).take(b) == s.take(b)
    &&& toks(out).skip(b + 1) == s.skip(b + 1)
    &&& out[b]@ matches Tok::Group(d, body) && d == Delimiter::Brace && toks(body)
        == emit_fields(fs)
}

/// Rewrites the record declaration `item`: each field marked
/// `#[unsafe_field]` loses the marker and has its type `T` replaced by
/// `::unsafe_fields::UnsafeField<T>`; every field of the block ends with a
/// comma; all other tokens are kept. `_args`, the arguments of the
/// top-level attribute, are ignored.
pub fn unsafe_fields(_args: Vec<TokenTree>, item: Vec<TokenTree>) -> (r: Result<
    Vec<TokenTree>,
    TransformError,
>)
    ensures
        match declaration_fields(toks(item@)) {
            Err(e) => r matches Err(x) && x@ == e,
            Ok(fs) => r matches Ok(out) && rewritten(toks(item@), out@, fs),
        },
{
    let ghost s = toks(item@);
    let mut rest = item;
    let mut out: Vec<TokenTree> = Vec::new();
    let ghost mut k: int = 0;
    assert(toks(out@) =~= s.take(0));
    assert(s.skip(0) =~= s);
    loop
        invariant
            s == toks(item@),
            0 <= k <= s.len(),
            toks(rest@) == s.skip(k),
            toks(out@) == s.take(k),
            find_block(s, 0) == find_block(s, k),
        ensures
            k < s.len(),
            toks(rest@) == s.skip(k),
            toks(out@) == s.take(k),
            find_block(s, 0) == BlockScan::At(k),
            rest@.len() > 0,
            rest@[0]@ == s[k],
            is_group(s[k], Delimiter::Brace),
        decreases rest@.len(),
    {
        proof {
            lemma_front(rest@, s, k);
        }
        if rest.len() == 0 {
            return Err(TransformError::MissingFieldBlock);
        }
        if front_is_group(&rest, Delimiter::Brace) {
            break;
        }
        if front_is_ident(&rest, "enum") || front_is_ident(&rest, "union") {
            return Err(TransformError::NotARecord);
        }
        let t = take_front(&mut rest);
        proof {
            lemma_toks_push(out@, t);
        }
        out.push(t);
        proof {
            k = k + 1;
        }
        assert(toks(out@) =~= s.take(k));
    }
    proof {
        lemma_front(rest@, s, k);
    }
    let block = take_group(&mut rest);
    let mut body = block.stream;
    let ghost bs = toks(body@);
    assert(bs == toks(group_body(s[k])));
    assert(bs.skip(0) =~= bs);
    let mut emitted: Vec<TokenTree> = Vec::new();
    let ghost mut j: int = 0;
    assert(toks(emitted@) =~= Seq::<Tok>::empty());
    loop
        invariant_except_break
            toks(body@) == bs.skip(j),
        invariant
            s == toks(item@),
            0 <= k < s.len(),
            find_block(s, 0) == BlockScan::At(k),
            bs == toks(group_body(s[k])),
            0 <= j <= bs.len(),
            scan_fields(bs, j) is Ok ==> scan_fields(bs, 0) is Ok && emit_fields(
                scan_fields(bs, 0)->Ok_0,
            ) == toks(emitted@) + emit_fields(scan_fields(bs, j)->Ok_0),
            scan_fields(bs, j) is Err ==> scan_fields(bs, 0) == scan_fields(bs, j),
        ensures
            scan_fields(bs, 0) is Ok,
            emit_fields(scan_fields(bs, 0)->Ok_0) == toks(emitted@),
        decreases body@.len(),
    {
        proof {
            lemma_scan_field_progress(bs, j);
            lemma_front(body@, bs, j);
        }
        match parse_field(&mut body, Ghost(bs), Ghost(j)) {
            Err(e) => {
                return Err(e);
            },
            Ok(None) => {
                assert(emit_fields(Seq::<FieldView>::empty()) =~= Seq::<Tok>::empty());
                assert(toks(emitted@) + Seq::<Tok>::empty() =~= toks(emitted@));
                break;
            },
            Ok(Some(f)) => {
                assert(scan_field(bs, j) is Got);
                let ghost fv = f@;
                let ghost next = scan_field(bs, j)->Got_1;
                let ghost before = toks(emitted@);
                let mut ft = f.into_tokens();
                proof {
                    lemma_toks_add(emitted@, ft@);
                    if let Ok(rest) = scan_fields(bs, next) {
                        let all = seq![fv] + rest;
                        assert(all[0] == fv);
                        assert(all.skip(1) =~= rest);
                        assert(before + emit_fields(all) =~= before + toks(ft@) + emit_fields(rest));
                    }
                }
                emitted.append(&mut ft);
                proof {
                    j = next;
                    lemma_front(body@, bs, j);
                }
            },
        }
    }
    let g = TokenTree::Group(Group { delimiter: Delimiter::Brace, stream: emitted });
    proof {
        lemma_toks_push(out@, g);
    }
    out.push(g);
    proof {
        lemma_toks_add(out@, rest@);
    }
    out.append(&mut rest);
    assert(toks(out@).take(k) =~= s.take(k));
    assert(toks(out@).skip(k + 1) =~= s.skip(k + 1));
    Ok(out)
}

} // verus!
