//! The field grammar, stated over token views.
//!
//! A field block is a run of fields. Each field is: attributes `#[..]`
//! (the marker `#[unsafe_field]` among them at most once), an optional
//! visibility `pub` or `pub(..)`, a name, a colon, and type tokens up to a
//! comma outside any `<..>` or the end of the block. In the type, the `>` of
//! an arrow `->` closes no `<`.
use vstd::prelude::*;
use crate::field::{FieldView, VisView};
use crate::token::{is_group, is_ident, is_punct, toks, Delimiter, Spacing, Tok, TokenTree};

verus! {

/// Why a declaration could not be rewritten.
#[derive(Debug)]
pub enum TransformError {
    /// The declaration is an `enum` or a `union`.
    NotARecord,
    /// No brace-delimited field block was found.
    MissingFieldBlock,
    /// `#` not followed by a bracketed attribute body: holds the token that
    /// follows it, or `None` where the block ends.
    AttributeShape(Option<TokenTree>),
    /// `#[unsafe_field]` appears twice on one field.
    DuplicateMarker,
    /// `pub` appears twice on one field.
    DuplicateVisibility,
    /// A token where the field grammar expects another shape, held here;
    /// this includes a `>` outside any `<..>` in a type.
    UnexpectedToken(TokenTree),
    /// The field block ends in the middle of a field.
    PrematureEnd,
}

/// Mathematical view of a [`TransformError`].
pub ghost enum ErrorView {
    NotARecord,
    MissingFieldBlock,
    AttributeShape(Option<Tok>),
    DuplicateMarker,
    DuplicateVisibility,
    UnexpectedToken(Tok),
    PrematureEnd,
}

impl View for TransformError {
    type V = ErrorView;

    open spec fn view(&self) -> ErrorView {
        match self {
            TransformError::NotARecord => ErrorView::NotARecord,
            TransformError::MissingFieldBlock => ErrorView::MissingFieldBlock,
            TransformError::AttributeShape(t) => ErrorView::AttributeShape(
                match t {
                    Some(x) => Some(x@),
                    None => None,
                },
            ),
            TransformError::DuplicateMarker => ErrorView::DuplicateMarker,
            TransformError::DuplicateVisibility => ErrorView::DuplicateVisibility,
            TransformError::UnexpectedToken(t) => ErrorView::UnexpectedToken(t@),
            TransformError::PrematureEnd => ErrorView::PrematureEnd,
        }
    }
}

/// Whether the body of an attribute is exactly the marker `unsafe_field`.
pub open spec fn is_marker_body(body: Seq<TokenTree>) -> bool {
    body.len() == 1 && body[0]@ == Tok::Ident("unsafe_field"@)
}

/// Whether `t` is the whole marker attribute body `[unsafe_field]`.
pub open spec fn is_marker_group(t: Tok) -> bool {
    t matches Tok::Group(d, body) && d == Delimiter::Bracket && is_marker_body(body)
}

/// Outcome of reading the attributes of a field.
pub ghost enum AttrScan {
    /// No field starts here: the block is over.
    End,
    Fail(ErrorView),
    /// The attributes end at an identifier at the given position, with the
    /// attributes kept and whether the marker was seen.
    Stop(int, Seq<Tok>, bool),
}

/// Reads attributes from position `i`, having kept `attrs` and seen the
/// marker iff `marked`.
pub open spec fn scan_attrs(s: Seq<Tok>, i: int, attrs: Seq<Tok>, marked: bool) -> AttrScan
    decreases s.len() - i,
{
    if i >= s.len() {
        if attrs.len() == 0 && !marked {
            AttrScan::End
        } else {
            AttrScan::Fail(ErrorView::PrematureEnd)
        }
    } else if is_punct(s[i], '#') {
        if i + 1 >= s.len() {
            AttrScan::Fail(ErrorView::AttributeShape(None))
        } else if !is_group(s[i + 1], Delimiter::Bracket) {
            AttrScan::Fail(ErrorView::AttributeShape(Some(s[i + 1])))
        } else if is_marker_group(s[i + 1]) {
            if marked {
                AttrScan::Fail(ErrorView::DuplicateMarker)
            } else {
                scan_attrs(s, i + 2, attrs, true)
            }
        } else {
            scan_attrs(s, i + 2, attrs + seq![s[i], s[i + 1]], marked)
        }
    } else if s[i] is Ident {
        AttrScan::Stop(i, attrs, marked)
    } else {
        AttrScan::Fail(ErrorView::UnexpectedToken(s[i]))
    }
}

/// Outcome of reading a visibility.
pub ghost enum VisScan {
    Fail(ErrorView),
    /// The visibility, and the position after it.
    Got(VisView, int),
}

/// Reads the visibility at position `i`.
pub open spec fn scan_vis(s: Seq<Tok>, i: int) -> VisScan {
    if 0 <= i < s.len() && is_ident(s[i], "pub"@) {
        if i + 1 >= s.len() {
            VisScan::Fail(ErrorView::PrematureEnd)
        } else if is_group(s[i + 1], Delimiter::Parenthesis) {
            VisScan::Got(VisView::Restricted("pub"@, s[i + 1]), i + 2)
        } else {
            VisScan::Got(VisView::Public("pub"@), i + 1)
        }
    } else {
        VisScan::Got(VisView::Inherited, i)
    }
}

/// Outcome of reading the type tokens of a field.
pub ghost enum TypeScan {
    Fail(ErrorView),
    /// Where the type tokens end, and the position after the field.
    Got(int, int),
}

/// Whether the token at `k` is a `>` that closes a `<`: one that is not the
/// head of an arrow `->`, whose `-` is joined to it.
pub open spec fn closes_angle(s: Seq<Tok>, k: int) -> bool {
    is_punct(s[k], '>') && !(k >= 1 && s[k - 1] == Tok::Punct('-', Spacing::Joint))
}

/// Reads type tokens from position `k`, inside `depth` unclosed `<`.
pub open spec fn scan_type(s: Seq<Tok>, k: int, depth: nat) -> TypeScan
    decreases s.len() - k,
{
    if k >= s.len() {
        TypeScan::Got(s.len() as int, s.len() as int)
    } else if is_punct(s[k], ',') && depth == 0 {
        TypeScan::Got(k, k + 1)
    } else if is_punct(s[k], '<') {
        scan_type(s, k + 1, depth + 1)
    } else if closes_angle(s, k) {
        if depth == 0 {
            TypeScan::Fail(ErrorView::UnexpectedToken(s[k]))
        } else {
            scan_type(s, k + 1, (depth - 1) as nat)
        }
    } else {
        scan_type(s, k + 1, depth)
    }
}

/// Outcome of reading one field.
pub ghost enum FieldScan {
    End,
    Fail(ErrorView),
    /// The field, and the position after it.
    Got(FieldView, int),
}

/// The spacing of a punctuation token.
pub open spec fn spacing_of(t: Tok) -> Spacing {
    match t {
        Tok::Punct(_, sp) => sp,
        _ => Spacing::Alone,
    }
}

/// The text of an identifier token.
pub open spec fn ident_text(t: Tok) -> Seq<char> {
    match t {
        Tok::Ident(x) => x,
        _ => Seq::empty(),
    }
}

/// Reads the field that starts at position `i`.
pub open spec fn scan_field(s: Seq<Tok>, i: int) -> FieldScan {
    match scan_attrs(s, i, Seq::empty(), false) {
        AttrScan::End => FieldScan::End,
        AttrScan::Fail(e) => FieldScan::Fail(e),
        AttrScan::Stop(p, attrs, marked) => match scan_vis(s, p) {
            VisScan::Fail(e) => FieldScan::Fail(e),
            VisScan::Got(vis, j) => {
                if !(vis is Inherited) && j < s.len() && is_ident(s[j], "pub"@) {
                    FieldScan::Fail(ErrorView::DuplicateVisibility)
                } else if j >= s.len() {
                    FieldScan::Fail(ErrorView::PrematureEnd)
                } else if !(s[j] is Ident) {
                    FieldScan::Fail(ErrorView::UnexpectedToken(s[j]))
                } else if j + 1 >= s.len() {
                    FieldScan::Fail(ErrorView::PrematureEnd)
                } else if !is_punct(s[j + 1], ':') {
                    FieldScan::Fail(ErrorView::UnexpectedToken(s[j + 1]))
                } else {
                    match scan_type(s, j + 2, 0) {
                        TypeScan::Fail(e) => FieldScan::Fail(e),
                        TypeScan::Got(end, next) => FieldScan::Got(
                            FieldView {
                                attrs,
                                vis,
                                unsafety: marked,
                                name: ident_text(s[j]),
                                colon: s[j + 1],
                                ty: s.subrange(j + 2, end),
                                comma: if next > end {
                                    Some(spacing_of(s[end]))
                                } else {
                                    None
                                },
                            },
                            next,
                        ),
                    }
                }
            },
        },
    }
}

pub proof fn lemma_scan_attrs_bounds(s: Seq<Tok>, i: int, attrs: Seq<Tok>, marked: bool)
    ensures
        scan_attrs(s, i, attrs, marked) matches AttrScan::Stop(p, _, _) ==> i <= p < s.len()
            && s[p] is Ident,
        scan_attrs(s, i, attrs, marked) is End ==> i >= s.len() && attrs.len() == 0 && !marked,
    decreases s.len() - i,
{
    if i < s.len() && is_punct(s[i], '#') && i + 1 < s.len() {
        lemma_scan_attrs_bounds(s, i + 2, attrs, true);
        lemma_scan_attrs_bounds(s, i + 2, attrs + seq![s[i], s[i + 1]], marked);
    }
}

pub proof fn lemma_scan_type_bounds(s: Seq<Tok>, k: int, depth: nat)
    requires
        k <= s.len(),
    ensures
        scan_type(s, k, depth) matches TypeScan::Got(e, n) ==> k <= e <= n <= s.len() && ((n
            == e && n == s.len()) || (n == e + 1 && is_punct(s[e], ','))),
    decreases s.len() - k,
{
    if k < s.len() {
        lemma_scan_type_bounds(s, k + 1, depth + 1);
        lemma_scan_type_bounds(s, k + 1, depth);
        if depth > 0 {
            lemma_scan_type_bounds(s, k + 1, (depth - 1) as nat);
        }
    }
}

/// Each field read moves forward, and stays inside the block.
pub proof fn lemma_scan_field_progress(s: Seq<Tok>, i: int)
    ensures
        scan_field(s, i) matches FieldScan::Got(_, next) ==> i < next <= s.len(),
{
    lemma_scan_attrs_bounds(s, i, Seq::empty(), false);
    if let AttrScan::Stop(p, _, _) = scan_attrs(s, i, Seq::empty(), false) {
        if let VisScan::Got(_, j) = scan_vis(s, p) {
            if j + 2 <= s.len() {
                lemma_scan_type_bounds(s, j + 2, 0);
            }
        }
    }
}

/// Reads the fields from position `i` to the end of the block.
pub open spec fn scan_fields(s: Seq<Tok>, i: int) -> Result<Seq<FieldView>, ErrorView>
    decreases s.len() - i,
    via scan_fields_decreases
{
    match scan_field(s, i) {
        FieldScan::End => Ok(Seq::empty()),
        FieldScan::Fail(e) => Err(e),
        FieldScan::Got(f, next) => match scan_fields(s, next) {
            Ok(fs) => Ok(seq![f] + fs),
            Err(e) => Err(e),
        },
    }
}

#[via_fn]
proof fn scan_fields_decreases(s: Seq<Tok>, i: int) {
    lemma_scan_field_progress(s, i);
}

/// Where the field block of a declaration lies.
pub ghost enum BlockScan {
    NotARecord,
    Missing,
    At(int),
}

/// Finds the first brace-delimited group from position `i`, failing on
/// `enum` or `union` before it.
pub open spec fn find_block(s: Seq<Tok>, i: int) -> BlockScan
    decreases s.len() - i,
{
    if i >= s.len() {
        BlockScan::Missing
    } else if is_group(s[i], Delimiter::Brace) {
        BlockScan::At(i)
    } else if is_ident(s[i], "enum"@) || is_ident(s[i], "union"@) {
        BlockScan::NotARecord
    } else {
        find_block(s, i + 1)
    }
}

/// The contents of a group token.
pub open spec fn group_body(t: Tok) -> Seq<TokenTree> {
    match t {
        Tok::Group(_, body) => body,
        _ => Seq::empty(),
    }
}

/// The fields of a declaration, or why it cannot be read.
pub open spec fn declaration_fields(s: Seq<Tok>) -> Result<Seq<FieldView>, ErrorView> {
    match find_block(s, 0) {
        BlockScan::NotARecord => Err(ErrorView::NotARecord),
        BlockScan::Missing => Err(ErrorView::MissingFieldBlock),
        BlockScan::At(b) => scan_fields(toks(group_body(s[b])), 0),
    }
}

} // verus!
