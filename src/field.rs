//! The parts of one field declaration and how they are written back.
use vstd::prelude::*;
use crate::token::{make_ident, make_punct, toks, Ident, Punct, Spacing, Tok, TokenTree, Group, lemma_toks_add, lemma_toks_push};

verus! {

/// The `pub` keyword of a visibility.
#[derive(Debug)]
pub struct Pub {
    pub ident: Ident,
}

/// `pub` followed by a parenthesized restriction such as `(crate)`.
#[derive(Debug)]
pub struct VisRestricted {
    pub pub_token: Pub,
    pub restrict: Group,
}

/// The visibility of a field.
#[derive(Debug)]
pub enum Visibility {
    Public(Pub),
    Restricted(VisRestricted),
    Inherited,
}

/// One parsed field declaration.
#[derive(Debug)]
pub struct Field {
    /// The attributes other than the marker, as tokens, in source order.
    pub attrs: Vec<TokenTree>,
    pub vis: Visibility,
    /// Whether the field carried the `#[unsafe_field]` marker.
    pub unsafety: bool,
    pub ident: Ident,
    pub colon: Punct,
    /// The tokens of the declared type.
    pub ty: Vec<TokenTree>,
    /// The spacing of the comma that ended the field; `None` for a last
    /// field written without one.
    pub comma: Option<Spacing>,
}

/// Mathematical view of a visibility.
pub ghost enum VisView {
    Public(Seq<char>),
    Restricted(Seq<char>, Tok),
    Inherited,
}

/// Mathematical view of a field.
pub ghost struct FieldView {
    pub attrs: Seq<Tok>,
    pub vis: VisView,
    pub unsafety: bool,
    pub name: Seq<char>,
    pub colon: Tok,
    pub ty: Seq<Tok>,
    pub comma: Option<Spacing>,
}

impl View for Visibility {
    type V = VisView;

    open spec fn view(&self) -> VisView {
        match self {
            Visibility::Public(p) => VisView::Public(p.ident.text@),
            Visibility::Restricted(r) => VisView::Restricted(
                r.pub_token.ident.text@,
                TokenTree::Group(r.restrict)@,
            ),
            Visibility::Inherited => VisView::Inherited,
        }
    }
}

impl View for Field {
    type V = FieldView;

    open spec fn view(&self) -> FieldView {
        FieldView {
            attrs: toks(self.attrs@),
            vis: self.vis@,
            unsafety: self.unsafety,
            name: self.ident.text@,
            colon: Tok::Punct(self.colon.ch, self.colon.spacing),
            ty: toks(self.ty@),
            comma: self.comma,
        }
    }
}

/// The tokens of a visibility.
pub open spec fn vis_toks(v: VisView) -> Seq<Tok> {
    match v {
        VisView::Public(p) => seq![Tok::Ident(p)],
        VisView::Restricted(p, g) => seq![Tok::Ident(p), g],
        VisView::Inherited => Seq::empty(),
    }
}

/// The tokens `::unsafe_fields::UnsafeField<` that open the wrapper type.
pub open spec fn wrapper_open() -> Seq<Tok> {
    seq![
        Tok::Punct(':', Spacing::Joint),
        Tok::Punct(':', Spacing::Alone),
        Tok::Ident("unsafe_fields"@),
        Tok::Punct(':', Spacing::Joint),
        Tok::Punct(':', Spacing::Alone),
        Tok::Ident("UnsafeField"@),
        Tok::Punct('<', Spacing::Alone),
    ]
}

/// The tokens `>` that close the wrapper type.
pub open spec fn wrapper_close() -> Seq<Tok> {
    seq![Tok::Punct('>', Spacing::Alone)]
}

/// The declared type as written back: wrapped iff the field is marked.
pub open spec fn emitted_type(f: FieldView) -> Seq<Tok> {
    if f.unsafety {
        wrapper_open() + f.ty + wrapper_close()
    } else {
        f.ty
    }
}

/// The comma that ends a written-back field: the field's own, or a new one.
pub open spec fn emitted_comma(f: FieldView) -> Tok {
    match f.comma {
        Some(sp) => Tok::Punct(',', sp),
        None => Tok::Punct(',', Spacing::Alone),
    }
}

/// The tokens of a field as written back.
pub open spec fn emit_field(f: FieldView) -> Seq<Tok> {
    f.attrs + vis_toks(f.vis) + seq![Tok::Ident(f.name), f.colon] + emitted_type(f) + seq![
        emitted_comma(f),
    ]
}

/// The tokens of a sequence of fields as written back, in order.
pub open spec fn emit_fields(fs: Seq<FieldView>) -> Seq<Tok>
    decreases fs.len(),
{
    if fs.len() == 0 {
        Seq::empty()
    } else {
        emit_field(fs[0]) + emit_fields(fs.skip(1))
    }
}

impl Visibility {
    /// Appends the tokens of this visibility to `vec`.
    pub fn to_tokens(self, vec: &mut Vec<TokenTree>)
        ensures
            toks(final(vec)@) == toks(old(vec)@) + vis_toks(self@),
    {
        match self {
            Visibility::Public(p) => {
                let t = TokenTree::Ident(p.ident);
                proof {
                    lemma_toks_push(vec@, t);
                }
                vec.push(t);
            },
            Visibility::Restricted(r) => {
                let a = TokenTree::Ident(r.pub_token.ident);
                let b = TokenTree::Group(r.restrict);
                proof {
                    lemma_toks_push(vec@, a);
                }
                vec.push(a);
                proof {
                    lemma_toks_push(vec@, b);
                }
                vec.push(b);
            },
            Visibility::Inherited => {},
        }
        assert(toks(vec@) =~= toks(old(vec)@) + vis_toks(self@));
    }
}

/// Appends `t` to `vec`.
fn push_tok(vec: &mut Vec<TokenTree>, t: TokenTree)
    ensures
        toks(final(vec)@) == toks(old(vec)@).push(t@),
{
    proof {
        lemma_toks_push(vec@, t);
    }
    vec.push(t);
}

impl Field {
    /// The tokens of this field as written back: the attributes, visibility,
    /// name and colon as they were, the type wrapped in
    /// `::unsafe_fields::UnsafeField<..>` when the field is marked, and a
    /// comma.
    pub fn into_tokens(self) -> (r: Vec<TokenTree>)
        ensures
            toks(r@) == emit_field(self@),
            toks(r@).last() == emitted_comma(self@),
            toks(r@).last() matches Tok::Punct(c, _) && c == ',',
    {
        let ghost f = self@;
        let Field { attrs, vis, unsafety, ident, colon, ty, comma } = self;
        let mut vec = attrs;
        vis.to_tokens(&mut vec);
        push_tok(&mut vec, TokenTree::Ident(ident));
        push_tok(&mut vec, TokenTree::Punct(colon));
        let ghost head = toks(vec@);
        if unsafety {
            push_tok(&mut vec, make_punct(':', Spacing::Joint));
            push_tok(&mut vec, make_punct(':', Spacing::Alone));
            push_tok(&mut vec, make_ident("unsafe_fields"));
            push_tok(&mut vec, make_punct(':', Spacing::Joint));
            push_tok(&mut vec, make_punct(':', Spacing::Alone));
            push_tok(&mut vec, make_ident("UnsafeField"));
            push_tok(&mut vec, make_punct('<', Spacing::Alone));
            assert(toks(vec@) =~= head + wrapper_open());
        }
        let ghost mid = toks(vec@);
        let mut ty = ty;
        proof {
            lemma_toks_add(vec@, ty@);
        }
        vec.append(&mut ty);
        if unsafety {
            push_tok(&mut vec, make_punct('>', Spacing::Alone));
        }
        let spacing = match comma {
            Some(sp) => sp,
            None => Spacing::Alone,
        };
        push_tok(&mut vec, make_punct(',', spacing));
        assert(toks(vec@) =~= emit_field(f));
        vec
    }
}

} // verus!
