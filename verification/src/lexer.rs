//! Tokenizer for the embedded compiler: spans over a source text, the token
//! alphabet, and a peekable lexer that stops at the first error.
use vstd::prelude::*;
use vstd::string::*;

verus! {

/// Half-open range of character positions in a source text.
#[derive(Clone, Copy, Debug, PartialEq, Eq, Hash, Structural)]
pub struct Span {
    pub start: usize,
    pub end: usize,
}

/// A span whose bounds are in order.
pub open spec fn span_wf(s: Span) -> bool {
    s.start <= s.end
}

impl Span {
    /// Constructs a new raw span.
    pub fn new_raw(start: usize, end: usize) -> (s: Self)
        ensures
            s == (Span { start, end }),
    {
        Span { start, end }
    }

    /// Constructs a new span over the inclusive position range `start..=end`.
    pub fn new_inclusive(start: usize, end: usize) -> (s: Self)
        requires
            end < usize::MAX,
        ensures
            s == (Span { start, end: (end + 1) as usize }),
    {
        Span { start, end: end + 1 }
    }

    /// Constructs a new span over the exclusive position range `start..end`.
    pub fn new_exclusive(start: usize, end: usize) -> (s: Self)
        ensures
            s == (Span { start, end }),
    {
        Span { start, end }
    }

    /// Constructs a new span for a single character.
    pub fn new_single(position: usize) -> (s: Self)
        requires
            position < usize::MAX,
        ensures
            s == (Span { start: position, end: (position + 1) as usize }),
    {
        Span { start: position, end: position + 1 }
    }

    /// Merges two spans where `lhs` is directly to the left of `rhs`.
    pub fn merge_unchecked(lhs: Self, rhs: Self) -> (s: Self)
        ensures
            s == (Span { start: lhs.start, end: rhs.end }),
    {
        Span { start: lhs.start, end: rhs.end }
    }

    /// Merges two adjacent spans, in either order.
    pub fn merge(lhs: Self, rhs: Self) -> (r: Option<Self>)
        ensures
            r == spec_merge(lhs, rhs),
    {
        if lhs.end == rhs.start {
            Some(Span { start: lhs.start, end: rhs.end })
        } else if rhs.end == lhs.start {
            Some(Span { start: rhs.start, end: lhs.end })
        } else {
            None
        }
    }

    /// Merges two possibly non-adjacent spans, bridging any gap between them.
    pub fn gap_merge(lhs: Self, rhs: Self) -> (r: Option<Self>)
        ensures
            r == spec_gap_merge(lhs, rhs),
    {
        match Self::merge(lhs, rhs) {
            Some(span) => Some(span),
            None => {
                if lhs.end < rhs.start {
                    Some(Span { start: lhs.start, end: rhs.end })
                } else if rhs.end < lhs.start {
                    Some(Span { start: rhs.start, end: lhs.end })
                } else {
                    None
                }
            },
        }
    }

    /// Merges any two spans together; for well-formed spans the result is the
    /// smallest span covering both.
    pub fn complete_merge(lhs: Self, rhs: Self) -> (r: Self)
        ensures
            r == spec_complete_merge(lhs, rhs),
    {
        match Self::gap_merge(lhs, rhs) {
            Some(span) => span,
            None => {
                Span {
                    start: if lhs.start < rhs.start {
                        lhs.start
                    } else {
                        rhs.start
                    },
                    end: if lhs.end > rhs.end {
                        lhs.end
                    } else {
                        rhs.end
                    },
                }
            },
        }
    }

    /// Gets the slice of `source` that this span covers.
    pub fn as_slice<'src>(&self, source: &'src str) -> (r: &'src str)
        requires
            self.start <= self.end <= source@.len(),
        ensures
            r@ == source@.subrange(self.start as int, self.end as int),
    {
        source.substring_char(self.start, self.end)
    }
}

/// What `Span::merge` returns: the covering span when one argument ends
/// exactly where the other begins.
pub open spec fn spec_merge(lhs: Span, rhs: Span) -> Option<Span> {
    if lhs.end == rhs.start {
        Some(Span { start: lhs.start, end: rhs.end })
    } else if rhs.end == lhs.start {
        Some(Span { start: rhs.start, end: lhs.end })
    } else {
        None
    }
}

/// What `Span::gap_merge` returns: a covering span when the two spans do not
/// strictly overlap.
pub open spec fn spec_gap_merge(lhs: Span, rhs: Span) -> Option<Span> {
    if spec_merge(lhs, rhs) is Some {
        spec_merge(lhs, rhs)
    } else if lhs.end < rhs.start {
        Some(Span { start: lhs.start, end: rhs.end })
    } else if rhs.end < lhs.start {
        Some(Span { start: rhs.start, end: lhs.end })
    } else {
        None
    }
}

/// What `Span::complete_merge` returns.
pub open spec fn spec_complete_merge(lhs: Span, rhs: Span) -> Span {
    match spec_gap_merge(lhs, rhs) {
        Some(span) => span,
        None => Span {
            start: if lhs.start < rhs.start {
                lhs.start
            } else {
                rhs.start
            },
            end: if lhs.end > rhs.end {
                lhs.end
            } else {
                rhs.end
            },
        },
    }
}

/// Merging adjacent well-formed spans does not depend on the argument order.
pub proof fn lemma_merge_commutes(a: Span, b: Span)
    requires
        span_wf(a),
        span_wf(b),
    ensures
        spec_merge(a, b) == spec_merge(b, a),
{
}

/// For well-formed spans, `complete_merge` is the smallest span covering
/// both: it starts at the earlier of the two starts and ends at the later of
/// the two ends, so any span covering both arguments also covers it.
pub proof fn lemma_complete_merge_smallest_cover(a: Span, b: Span)
    requires
        span_wf(a),
        span_wf(b),
    ensures
        span_wf(spec_complete_merge(a, b)),
        spec_complete_merge(a, b).start == if a.start <= b.start {
            a.start
        } else {
            b.start
        },
        spec_complete_merge(a, b).end == if a.end >= b.end {
            a.end
        } else {
            b.end
        },
{
}

/// A value of type `T` together with the span it was read from.
#[derive(Clone, Copy, Debug, PartialEq, Eq, Hash)]
pub struct Spanned<T> {
    /// The spanned `T` instance.
    pub inner: T,
    /// The span the value was read from.
    pub span: Span,
}

impl<T> Spanned<T> {
    /// Adds a span to `inner`.
    pub fn new(inner: T, span: Span) -> (r: Self)
        ensures
            r.inner == inner,
            r.span == span,
    {
        Spanned { inner, span }
    }

    /// Evaluates the span of `T`.
    pub fn span(&self) -> (r: Span)
        ensures
            r == self.span,
    {
        self.span
    }

    /// Keeps the span while mapping the value.
    pub fn map<U, F: FnOnce(T) -> U>(self, f: F) -> (r: Spanned<U>)
        requires
            call_requires(f, (self.inner,)),
        ensures
            r.span == self.span,
            call_ensures(f, (self.inner,), r.inner),
    {
        let span = self.span;
        Spanned { inner: f(self.inner), span }
    }

    /// Strips the span off of `inner`.
    pub fn strip(self) -> (r: T)
        ensures
            r == self.inner,
    {
        self.inner
    }
}

/// All keywords that cannot be used for identifiers.
#[derive(Clone, Copy, Debug, PartialEq, Eq, Hash, Structural)]
pub enum Keyword {
    /// Function definition "fn".
    Fn,
    /// Return for returning from functions "return".
    Return,
    /// If statement "if".
    If,
    /// Else statement "else".
    Else,
    /// Trait definition "trait".
    Trait,
    /// Struct definition "struct".
    Struct,
    /// Enum definition "enum".
    Enum,
    /// Variable declaration "decl".
    Decl,
}

/// The keyword that a stretch of characters spells, if any.
pub open spec fn spec_keyword_of(s: Seq<char>) -> Option<Keyword> {
    if s == seq!['f', 'n'] {
        Some(Keyword::Fn)
    } else if s == seq!['r', 'e', 't', 'u', 'r', 'n'] {
        Some(Keyword::Return)
    } else if s == seq!['i', 'f'] {
        Some(Keyword::If)
    } else if s == seq!['e', 'l', 's', 'e'] {
        Some(Keyword::Else)
    } else if s == seq!['t', 'r', 'a', 'i', 't'] {
        Some(Keyword::Trait)
    } else if s == seq!['s', 't', 'r', 'u', 'c', 't'] {
        Some(Keyword::Struct)
    } else if s == seq!['e', 'n', 'u', 'm'] {
        Some(Keyword::Enum)
    } else if s == seq!['d', 'e', 'c', 'l'] {
        Some(Keyword::Decl)
    } else {
        None
    }
}

impl Keyword {
    /// Recognizes a keyword, or reports that the text is an ordinary
    /// identifier.
    pub fn try_from(value: &str) -> (r: Result<Keyword, ()>)
        ensures
            match spec_keyword_of(value@) {
                Some(k) => r == Ok::<Keyword, ()>(k),
                None => r == Err::<Keyword, ()>(()),
            },
    {
        let n = value.unicode_len();
        if n == 2 {
            let c0 = value.get_char(0);
            let c1 = value.get_char(1);
            proof {
                assert(value@ =~= seq![value@[0], value@[1]]);
            }
            if c0 == 'f' && c1 == 'n' {
                Ok(Keyword::Fn)
            } else if c0 == 'i' && c1 == 'f' {
                Ok(Keyword::If)
            } else {
                Err(())
            }
        } else if n == 4 {
            let c0 = value.get_char(0);
            let c1 = value.get_char(1);
            let c2 = value.get_char(2);
            let c3 = value.get_char(3);
            proof {
                assert(value@ =~= seq![value@[0], value@[1], value@[2], value@[3]]);
            }
            if c0 == 'e' && c1 == 'l' && c2 == 's' && c3 == 'e' {
                Ok(Keyword::Else)
            } else if c0 == 'e' && c1 == 'n' && c2 == 'u' && c3 == 'm' {
                Ok(Keyword::Enum)
            } else if c0 == 'd' && c1 == 'e' && c2 == 'c' && c3 == 'l' {
                Ok(Keyword::Decl)
            } else {
                Err(())
            }
        } else if n == 5 {
            let c0 = value.get_char(0);
            let c1 = value.get_char(1);
            let c2 = value.get_char(2);
            let c3 = value.get_char(3);
            let c4 = value.get_char(4);
            proof {
                assert(value@ =~= seq![value@[0], value@[1], value@[2], value@[3], value@[4]]);
            }
            if c0 == 't' && c1 == 'r' && c2 == 'a' && c3 == 'i' && c4 == 't' {
                Ok(Keyword::Trait)
            } else {
                Err(())
            }
        } else if n == 6 {
            let c0 = value.get_char(0);
            let c1 = value.get_char(1);
            let c2 = value.get_char(2);
            let c3 = value.get_char(3);
            let c4 = value.get_char(4);
            let c5 = value.get_char(5);
            proof {
                assert(value@ =~= seq![
                    value@[0],
                    value@[1],
                    value@[2],
                    value@[3],
                    value@[4],
                    value@[5],
                ]);
            }
            if c0 == 'r' && c1 == 'e' && c2 == 't' && c3 == 'u' && c4 == 'r' && c5 == 'n' {
                Ok(Keyword::Return)
            } else if c0 == 's' && c1 == 't' && c2 == 'r' && c3 == 'u' && c4 == 'c' && c5 == 't' {
                Ok(Keyword::Struct)
            } else {
                Err(())
            }
        } else {
            Err(())
        }
    }
}

/// Symbols, mainly for operators.
#[derive(Clone, Copy, Debug, PartialEq, Eq, Hash, Structural)]
pub enum Symbol {
    /// Addition '+'.
    Add,
    /// Subtraction '-'.
    Sub,
    /// Dereference or multiplication '*'.
    Star,
    /// Division '/'.
    Div,
    /// Bitwise and '&'.
    BitAnd,
    /// Bitwise or '|'.
    BitOr,
    /// Bitwise xor '^'.
    BitXor,
    /// Bitwise not '~'.
    BitNot,
    /// '('.
    LParen,
    /// ')'.
    RParen,
    /// Array syntax '['.
    LBrack,
    /// Array syntax ']'.
    RBrack,
    /// Block start '{'.
    LBrace,
    /// Block end '}'.
    RBrace,
    /// Assignment '='.
    Assign,
    /// Assignment and addition "+=".
    AddAssign,
    /// Assignment and subtraction "-=".
    SubAssign,
    /// Assignment and multiplication "*=".
    MulAssign,
    /// Assignment and division "/=".
    DivAssign,
    /// Assignment and bitwise and "&=".
    AndAssign,
    /// Assignment and bitwise or "|=".
    OrAssign,
    /// Assignment and bitwise xor "^=".
    XorAssign,
    /// Less-than comparison '<'.
    Less,
    /// Greater-than comparison '>'.
    Greater,
    /// Left shift "<<".
    LShift,
    /// Right shift ">>".
    RShift,
    /// Logical and "&&".
    And,
    /// Logical or "||".
    Or,
    /// Logical not '!'.
    Not,
    /// Not-equal comparison "!=".
    Ne,
    /// Equal comparison "==".
    Eq,
    /// Less-than-or-equal comparison "<=".
    LessEq,
    /// Greater-than-or-equal comparison ">=".
    GreaterEq,
    /// Try operator '?'.
    Try,
    /// Field-at operator '@'.
    FieldAt,
    /// Function-at operator '.'.
    FnAt,
    /// Into-trait operator '#'.
    IntoTrait,
    /// Statement separator ';'.
    Semi,
}

/// Gives a reason for why the lexer stopped.
#[derive(Clone, Copy, Debug, PartialEq, Eq, Hash, Structural)]
pub enum LexerError {
    /// Unlexable characters.
    MalformedInput,
    /// End of the source text.
    UnexpectedEof,
}

impl LexerError {
    /// Includes a span with an error.
    pub fn add_span(self, span: Span) -> (r: Spanned<LexerError>)
        ensures
            r.inner == self,
            r.span == span,
    {
        Spanned::new(self, span)
    }
}

/// All possible basic elements of a source file.
#[derive(Clone, Copy, Debug, PartialEq, Eq, Hash)]
pub enum Token<'src> {
    /// Identifier: started by a letter or '_' and continued by the same or
    /// digits.
    Ident(&'src str),
    /// Keyword.
    Keyword(Keyword),
    /// Symbol.
    Symbol(Symbol),
    /// Lexer error.
    Error(LexerError),
}

impl<'src> Token<'src> {
    /// Includes a span with a token.
    pub fn add_span(self, span: Span) -> (r: Spanned<Token<'src>>)
        ensures
            r.inner == self,
            r.span == span,
    {
        Spanned::new(self, span)
    }
}

/// Whether the character counts as whitespace; stands for what
/// `char::is_whitespace` returns.
pub uninterp spec fn char_is_whitespace(c: char) -> bool;

/// Whether the character counts as a letter; stands for what
/// `char::is_alphabetic` returns.
pub uninterp spec fn char_is_alphabetic(c: char) -> bool;

/// Whether the character counts as a letter or digit; stands for what
/// `char::is_alphanumeric` returns.
pub uninterp spec fn char_is_alphanumeric(c: char) -> bool;

/// Relies on char::is_whitespace: the result depends on the character
/// alone, and on ASCII it holds exactly of space and of the control
/// characters tab through carriage return.
#[verifier::external_body]
fn is_whitespace_char(c: char) -> (r: bool)
    ensures
        r == char_is_whitespace(c),
        (c as u32) < 128 ==> (r <==> ((c as u32) == 32 || (9 <= (c as u32) <= 13))),
{
    c.is_whitespace()
}

/// Relies on char::is_alphabetic: the result depends on the character
/// alone, and on ASCII it holds exactly of the letters.
#[verifier::external_body]
fn is_alphabetic_char(c: char) -> (r: bool)
    ensures
        r == char_is_alphabetic(c),
        (c as u32) < 128 ==> (r <==> (97 <= (c as u32) <= 122 || 65 <= (c as u32) <= 90)),
{
    c.is_alphabetic()
}

/// Relies on char::is_alphanumeric: the result depends on the character
/// alone, and on ASCII it holds exactly of the letters and digits.
#[verifier::external_body]
fn is_alphanumeric_char(c: char) -> (r: bool)
    ensures
        r == char_is_alphanumeric(c),
        (c as u32) < 128 ==> (r <==> (97 <= (c as u32) <= 122 || 65 <= (c as u32) <= 90 || 48 <= (
        c as u32) <= 57)),
{
    c.is_alphanumeric()
}

/// The symbol read when `c` stands alone, if `c` begins a symbol at all.
pub open spec fn spec_symbol1(c: char) -> Option<Symbol> {
    match c {
        '+' => Some(Symbol::Add),
        '-' => Some(Symbol::Sub),
        '*' => Some(Symbol::Star),
        '/' => Some(Symbol::Div),
        '&' => Some(Symbol::BitAnd),
        '|' => Some(Symbol::BitOr),
        '^' => Some(Symbol::BitXor),
        '~' => Some(Symbol::BitNot),
        '(' => Some(Symbol::LParen),
        ')' => Some(Symbol::RParen),
        '[' => Some(Symbol::LBrack),
        ']' => Some(Symbol::RBrack),
        '{' => Some(Symbol::LBrace),
        '}' => Some(Symbol::RBrace),
        '=' => Some(Symbol::Assign),
        '<' => Some(Symbol::Less),
        '>' => Some(Symbol::Greater),
        '!' => Some(Symbol::Not),
        '?' => Some(Symbol::Try),
        '@' => Some(Symbol::FieldAt),
        '.' => Some(Symbol::FnAt),
        '#' => Some(Symbol::IntoTrait),
        ';' => Some(Symbol::Semi),
        _ => None,
    }
}

/// The two-character symbol read when `c` is followed by `n`, if any.
pub open spec fn spec_symbol2(c: char, n: char) -> Option<Symbol> {
    match c {
        '+' => if n == '=' {
            Some(Symbol::AddAssign)
        } else {
            None
        },
        '-' => if n == '=' {
            Some(Symbol::SubAssign)
        } else {
            None
        },
        '*' => if n == '=' {
            Some(Symbol::MulAssign)
        } else {
            None
        },
        '/' => if n == '=' {
            Some(Symbol::DivAssign)
        } else {
            None
        },
        '&' => if n == '&' {
            Some(Symbol::And)
        } else if n == '=' {
            Some(Symbol::AndAssign)
        } else {
            None
        },
        '|' => if n == '|' {
            Some(Symbol::Or)
        } else if n == '=' {
            Some(Symbol::OrAssign)
        } else {
            None
        },
        '^' => if n == '=' {
            Some(Symbol::XorAssign)
        } else {
            None
        },
        '=' => if n == '=' {
            Some(Symbol::Eq)
        } else {
            None
        },
        '<' => if n == '<' {
            Some(Symbol::LShift)
        } else if n == '=' {
            Some(Symbol::LessEq)
        } else {
            None
        },
        '>' => if n == '>' {
            Some(Symbol::RShift)
        } else if n == '=' {
            Some(Symbol::GreaterEq)
        } else {
            None
        },
        '!' => if n == '=' {
            Some(Symbol::Ne)
        } else {
            None
        },
        _ => None,
    }
}

fn symbol_lookup1(c: char) -> (r: Option<Symbol>)
    ensures
        r == spec_symbol1(c),
{
    match c {
        '+' => Some(Symbol::Add),
        '-' => Some(Symbol::Sub),
        '*' => Some(Symbol::Star),
        '/' => Some(Symbol::Div),
        '&' => Some(Symbol::BitAnd),
        '|' => Some(Symbol::BitOr),
        '^' => Some(Symbol::BitXor),
        '~' => Some(Symbol::BitNot),
        '(' => Some(Symbol::LParen),
        ')' => Some(Symbol::RParen),
        '[' => Some(Symbol::LBrack),
        ']' => Some(Symbol::RBrack),
        '{' => Some(Symbol::LBrace),
        '}' => Some(Symbol::RBrace),
        '=' => Some(Symbol::Assign),
        '<' => Some(Symbol::Less),
        '>' => Some(Symbol::Greater),
        '!' => Some(Symbol::Not),
        '?' => Some(Symbol::Try),
        '@' => Some(Symbol::FieldAt),
        '.' => Some(Symbol::FnAt),
        '#' => Some(Symbol::IntoTrait),
        ';' => Some(Symbol::Semi),
        _ => None,
    }
}

fn symbol_lookup2(c: char, n: char) -> (r: Option<Symbol>)
    ensures
        r == spec_symbol2(c, n),
{
    match c {
        '+' => if n == '=' {
            Some(Symbol::AddAssign)
        } else {
            None
        },
        '-' => if n == '=' {
            Some(Symbol::SubAssign)
        } else {
            None
        },
        '*' => if n == '=' {
            Some(Symbol::MulAssign)
        } else {
            None
        },
        '/' => if n == '=' {
            Some(Symbol::DivAssign)
        } else {
            None
        },
        '&' => if n == '&' {
            Some(Symbol::And)
        } else if n == '=' {
            Some(Symbol::AndAssign)
        } else {
            None
        },
        '|' => if n == '|' {
            Some(Symbol::Or)
        } else if n == '=' {
            Some(Symbol::OrAssign)
        } else {
            None
        },
        '^' => if n == '=' {
            Some(Symbol::XorAssign)
        } else {
            None
        },
        '=' => if n == '=' {
            Some(Symbol::Eq)
        } else {
            None
        },
        '<' => if n == '<' {
            Some(Symbol::LShift)
        } else if n == '=' {
            Some(Symbol::LessEq)
        } else {
            None
        },
        '>' => if n == '>' {
            Some(Symbol::RShift)
        } else if n == '=' {
            Some(Symbol::GreaterEq)
        } else {
            None
        },
        '!' => if n == '=' {
            Some(Symbol::Ne)
        } else {
            None
        },
        _ => None,
    }
}

/// Whether a character may begin an identifier.
pub open spec fn spec_ident_start(c: char) -> bool {
    char_is_alphabetic(c) || c == '_'
}

/// Whether a character may continue an identifier.
pub open spec fn spec_ident_char(c: char) -> bool {
    char_is_alphanumeric(c) || c == '_'
}

/// The first position at or after `i` holding a non-whitespace character, or
/// the length of `s` when only whitespace remains.
pub open spec fn spec_skip_ws(s: Seq<char>, i: int) -> int
    decreases s.len() - i,
{
    if i < 0 {
        0
    } else if i >= s.len() {
        s.len() as int
    } else if char_is_whitespace(s[i]) {
        spec_skip_ws(s, i + 1)
    } else {
        i
    }
}

/// The first position at or after `i` that does not continue an identifier,
/// or the length of `s`.
pub open spec fn spec_ident_end(s: Seq<char>, i: int) -> int
    decreases s.len() - i,
{
    if i < 0 {
        0
    } else if i >= s.len() {
        s.len() as int
    } else if spec_ident_char(s[i]) {
        spec_ident_end(s, i + 1)
    } else {
        i
    }
}

/// The iterator over tokens.
#[derive(Clone, Copy, Debug)]
pub struct RawLexer<'src> {
    /// The text being tokenized.
    pub source: &'src str,
    /// The position (in characters) of the next character to read.
    pub pos: usize,
    /// Whether the lexer already reported an error and stopped.
    pub stopped: bool,
}

impl<'src> RawLexer<'src> {
    /// The position stays within the source and one more span fits in
    /// `usize`.
    pub open spec fn wf(&self) -> bool {
        self.pos <= self.source@.len() < usize::MAX
    }

    /// Creates a tokenizer at the start of `source`.
    pub fn new(source: &'src str) -> (r: Self)
        requires
            source@.len() < usize::MAX,
        ensures
            r.source == source,
            r.pos == 0,
            !r.stopped,
            r.wf(),
    {
        Self { source, pos: 0, stopped: false }
    }

    /// Reads the next token: a symbol of one or two characters, a keyword or
    /// identifier, or an error token for unlexable input or the end of the
    /// source; `None` once an error has been reported.
    pub fn next(&mut self) -> (r: Option<Spanned<Token<'src>>>)
        requires
            old(self).wf(),
        ensures
            final(self).wf(),
            raw_next_spec(*old(self), *final(self), r),
    {
        if self.stopped {
            return None;
        }
        let len = self.source.unicode_len();
        while self.pos < len && is_whitespace_char(self.source.get_char(self.pos))
            invariant
                self.source@.len() == len,
                self.pos <= len,
                len < usize::MAX,
                self.source == old(self).source,
                self.stopped == old(self).stopped,
                spec_skip_ws(self.source@, old(self).pos as int) == spec_skip_ws(
                    self.source@,
                    self.pos as int,
                ),
            decreases len - self.pos,
        {
            self.pos = self.pos + 1;
        }
        let ghost p = spec_skip_ws(self.source@, old(self).pos as int);
        proof {
            assert(p == self.pos as int);
        }
        if self.pos == len {
            self.stopped = true;
            let span = Span::new_single(self.pos);
            return Some(Token::Error(LexerError::UnexpectedEof).add_span(span));
        }
        let pos = self.pos;
        let c = self.source.get_char(pos);
        match symbol_lookup1(c) {
            Some(sym1) => {
                if pos + 1 < len {
                    let nc = self.source.get_char(pos + 1);
                    match symbol_lookup2(c, nc) {
                        Some(sym2) => {
                            let span = Span::new_raw(pos, pos + 2);
                            self.pos = pos + 2;
                            return Some(Token::Symbol(sym2).add_span(span));
                        },
                        None => {},
                    }
                }
                let span = Span::new_single(pos);
                self.pos = pos + 1;
                Some(Token::Symbol(sym1).add_span(span))
            },
            None => {
                if is_alphabetic_char(c) || c == '_' {
                    self.pos = pos + 1;
                    while self.pos < len && is_ident_continue(self.source, self.pos)
                        invariant
                            self.source@.len() == len,
                            pos < self.pos <= len,
                            len < usize::MAX,
                            self.source == old(self).source,
                            self.stopped == old(self).stopped,
                            spec_ident_end(self.source@, pos + 1) == spec_ident_end(
                                self.source@,
                                self.pos as int,
                            ),
                        decreases len - self.pos,
                    {
                        self.pos = self.pos + 1;
                    }
                    let slice = self.source.substring_char(pos, self.pos);
                    let span = Span::new_raw(pos, self.pos);
                    match Keyword::try_from(slice) {
                        Ok(keyword) => Some(Token::Keyword(keyword).add_span(span)),
                        Err(_) => Some(Token::Ident(slice).add_span(span)),
                    }
                } else {
                    self.stopped = true;
                    let span = Span::new_single(pos);
                    self.pos = pos + 1;
                    Some(Token::Error(LexerError::MalformedInput).add_span(span))
                }
            },
        }
    }
}

/// What one call of `RawLexer::next` does: `pre` and `post` are the states
/// before and after, `r` the returned token. Whitespace before the token is
/// skipped; a stopped lexer yields `None`; the end of the source yields one
/// end-of-file error token and stops.
pub open spec fn raw_next_spec<'src>(
    pre: RawLexer<'src>,
    post: RawLexer<'src>,
    r: Option<Spanned<Token<'src>>>,
) -> bool {
    let s = pre.source@;
    let p = spec_skip_ws(s, pre.pos as int);
    if pre.stopped {
        r is None && post == pre
    } else {
        post.source == pre.source && if p == s.len() {
            &&& post.stopped
            &&& post.pos == p
            &&& r == Some(
                Spanned {
                    inner: Token::Error(LexerError::UnexpectedEof),
                    span: Span { start: p as usize, end: (p + 1) as usize },
                },
            )
        } else {
            let c = s[p];
            match spec_symbol1(c) {
                Some(sym1) => {
                    if p + 1 < s.len() && spec_symbol2(c, s[p + 1]) is Some {
                        match spec_symbol2(c, s[p + 1]) {
                            Some(sym2) => {
                                &&& !post.stopped
                                &&& post.pos == p + 2
                                &&& r == Some(
                                    Spanned {
                                        inner: Token::Symbol(sym2),
                                        span: Span { start: p as usize, end: (p + 2) as usize },
                                    },
                                )
                            },
                            None => false,
                        }
                    } else {
                        &&& !post.stopped
                        &&& post.pos == p + 1
                        &&& r == Some(
                            Spanned {
                                inner: Token::Symbol(sym1),
                                span: Span { start: p as usize, end: (p + 1) as usize },
                            },
                        )
                    }
                },
                None => {
                    if spec_ident_start(c) {
                        let e = spec_ident_end(s, p + 1);
                        let text = s.subrange(p, e);
                        &&& !post.stopped
                        &&& post.pos == e
                        &&& match r {
                            Some(sp) => {
                                &&& sp.span == (Span { start: p as usize, end: e as usize })
                                &&& match sp.inner {
                                    Token::Keyword(k) => spec_keyword_of(text) == Some(k),
                                    Token::Ident(t) => t@ == text && spec_keyword_of(text) is None,
                                    _ => false,
                                }
                            },
                            None => false,
                        }
                    } else {
                        &&& post.stopped
                        &&& post.pos == p + 1
                        &&& r == Some(
                            Spanned {
                                inner: Token::Error(LexerError::MalformedInput),
                                span: Span { start: p as usize, end: (p + 1) as usize },
                            },
                        )
                    }
                },
            }
        }
    }
}

/// Whether the character at position `i` continues an identifier.
fn is_ident_continue(s: &str, i: usize) -> (r: bool)
    requires
        i < s@.len(),
    ensures
        r == spec_ident_char(s@[i as int]),
{
    let c = s.get_char(i);
    is_alphanumeric_char(c) || c == '_'
}

/// A lexer over tokens that reports a `LexerError` instead of error tokens,
/// and keeps reporting the first error once one was seen.
#[derive(Clone, Copy, Debug)]
pub struct Lexer<'src> {
    inner: RawLexer<'src>,
    end_error: Option<Spanned<LexerError>>,
}

impl<'src> Lexer<'src> {
    /// The inner tokenizer is within bounds and has not stopped unless an
    /// error was recorded.
    pub open spec fn wf(&self) -> bool {
        &&& self.spec_inner().wf()
        &&& self.spec_end_error() is None ==> !self.spec_inner().stopped
    }

    /// Spec-level access to the inner tokenizer state.
    pub closed spec fn spec_inner(&self) -> RawLexer<'src> {
        self.inner
    }

    /// Spec-level access to the recorded error, if any.
    pub closed spec fn spec_end_error(&self) -> Option<Spanned<LexerError>> {
        self.end_error
    }

    /// Creates a lexer for a source string.
    pub fn new(source: &'src str) -> (r: Self)
        requires
            source@.len() < usize::MAX,
        ensures
            r.wf(),
            r.spec_inner() == (RawLexer { source, pos: 0, stopped: false }),
            r.spec_end_error() is None,
    {
        Self { inner: RawLexer::new(source), end_error: None }
    }

    /// Gets the next token, or the error that ended the token stream.
    pub fn next(&mut self) -> (r: Result<Spanned<Token<'src>>, Spanned<LexerError>>)
        requires
            old(self).wf(),
        ensures
            final(self).wf(),
            old(self).spec_end_error() is Some ==> r == Err::<Spanned<Token<'src>>, _>(
                old(self).spec_end_error()->0,
            ) && *final(self) == *old(self),
            old(self).spec_end_error() is None ==> match r {
                Ok(t) => {
                    &&& raw_next_spec(old(self).spec_inner(), final(self).spec_inner(), Some(t))
                    &&& !(t.inner is Error)
                    &&& final(self).spec_end_error() is None
                },
                Err(e) => {
                    &&& raw_next_spec(
                        old(self).spec_inner(),
                        final(self).spec_inner(),
                        Some(Spanned { inner: Token::Error(e.inner), span: e.span }),
                    )
                    &&& final(self).spec_end_error() == Some(e)
                },
            },
    {
        match self.end_error {
            Some(error) => Err(error),
            None => {
                match self.inner.next() {
                    Some(next) => {
                        match next.inner {
                            Token::Error(error) => {
                                let err = error.add_span(next.span);
                                self.end_error = Some(err);
                                Err(err)
                            },
                            _ => Ok(next),
                        }
                    },
                    None => vstd::pervasive::unreached(),
                }
            },
        }
    }

    /// Peeks the next token, or the error that ends the token stream,
    /// without advancing past a proper token.
    pub fn peek(&mut self) -> (r: Result<Spanned<Token<'src>>, Spanned<LexerError>>)
        requires
            old(self).wf(),
        ensures
            final(self).wf(),
            final(self).spec_inner() == old(self).spec_inner(),
            old(self).spec_end_error() is Some ==> r == Err::<Spanned<Token<'src>>, _>(
                old(self).spec_end_error()->0,
            ) && *final(self) == *old(self),
            old(self).spec_end_error() is None ==> match r {
                Ok(t) => {
                    &&& exists|probe: RawLexer<'src>|
                        raw_next_spec(old(self).spec_inner(), probe, Some(t))
                    &&& !(t.inner is Error)
                    &&& final(self).spec_end_error() is None
                },
                Err(e) => {
                    &&& exists|probe: RawLexer<'src>|
                        raw_next_spec(
                            old(self).spec_inner(),
                            probe,
                            Some(Spanned { inner: Token::Error(e.inner), span: e.span }),
                        )
                    &&& final(self).spec_end_error() == Some(e)
                },
            },
    {
        match self.end_error {
            Some(error) => Err(error),
            None => {
                let mut probe = self.inner;
                match probe.next() {
                    Some(next) => {
                        match next.inner {
                            Token::Error(error) => {
                                let err = error.add_span(next.span);
                                self.end_error = Some(err);
                                Err(err)
                            },
                            _ => Ok(next),
                        }
                    },
                    None => vstd::pervasive::unreached(),
                }
            },
        }
    }
}

} // verus!
