//! Token model: identifiers, punctuation, literals and delimited groups.
use vstd::prelude::*;
use vstd::string::*;

verus! {

/// The delimiter of a group.
#[derive(PartialEq, Eq, Structural, Clone, Copy, Debug)]
pub enum Delimiter {
    Parenthesis,
    Brace,
    Bracket,
    Invisible,
}

/// Whether a punctuation character is joined to the token that follows it.
#[derive(PartialEq, Eq, Structural, Clone, Copy, Debug)]
pub enum Spacing {
    Alone,
    Joint,
}

/// An identifier or keyword.
#[derive(Debug)]
pub struct Ident {
    pub text: String,
}

/// A single punctuation character.
#[derive(PartialEq, Eq, Structural, Clone, Copy, Debug)]
pub struct Punct {
    pub ch: char,
    pub spacing: Spacing,
}

/// A literal, kept as its source text.
#[derive(Debug)]
pub struct Literal {
    pub text: String,
}

/// A delimited token sequence.
#[derive(Debug)]
pub struct Group {
    pub delimiter: Delimiter,
    pub stream: Vec<TokenTree>,
}

/// One token tree.
#[derive(Debug)]
pub enum TokenTree {
    Group(Group),
    Ident(Ident),
    Punct(Punct),
    Literal(Literal),
}

/// Mathematical view of a token tree. A group keeps its contents as the
/// token trees themselves, which the rewriting only moves around.
pub ghost enum Tok {
    Group(Delimiter, Seq<TokenTree>),
    Ident(Seq<char>),
    Punct(char, Spacing),
    Literal(Seq<char>),
}

impl View for TokenTree {
    type V = Tok;

    open spec fn view(&self) -> Tok {
        match self {
            TokenTree::Group(g) => Tok::Group(g.delimiter, g.stream@),
            TokenTree::Ident(i) => Tok::Ident(i.text@),
            TokenTree::Punct(p) => Tok::Punct(p.ch, p.spacing),
            TokenTree::Literal(l) => Tok::Literal(l.text@),
        }
    }
}

/// The views of a sequence of token trees.
pub open spec fn toks(s: Seq<TokenTree>) -> Seq<Tok> {
    s.map_values(|t: TokenTree| t@)
}

pub open spec fn is_punct(t: Tok, ch: char) -> bool {
    t matches Tok::Punct(c, _) && c == ch
}

pub open spec fn is_ident(t: Tok, text: Seq<char>) -> bool {
    t matches Tok::Ident(x) && x == text
}

pub open spec fn is_group(t: Tok, d: Delimiter) -> bool {
    t matches Tok::Group(e, _) && e == d
}

pub proof fn lemma_toks_push(s: Seq<TokenTree>, t: TokenTree)
    ensures
        toks(s.push(t)) == toks(s).push(t@),
{
    assert(toks(s.push(t)) =~= toks(s).push(t@));
}

pub proof fn lemma_toks_add(a: Seq<TokenTree>, b: Seq<TokenTree>)
    ensures
        toks(a + b) == toks(a) + toks(b),
{
    assert(toks(a + b) =~= toks(a) + toks(b));
}

/// A fresh identifier token with the given text.
pub fn make_ident(text: &str) -> (r: TokenTree)
    ensures
        r@ == Tok::Ident(text@),
{
    TokenTree::Ident(Ident { text: String::from_str(text) })
}

/// A fresh punctuation token.
pub fn make_punct(ch: char, spacing: Spacing) -> (r: TokenTree)
    ensures
        r@ == Tok::Punct(ch, spacing),
{
    TokenTree::Punct(Punct { ch, spacing })
}

/// Whether `i` is the identifier spelled `text`.
pub fn ident_is(i: &Ident, text: &str) -> (r: bool)
    ensures
        r == (i.text@ == text@),
{
    let t = String::from_str(text);
    i.text == t
}

} // verus!
