use vstd::prelude::*;

verus! {

/// A punctuation or operator symbol.
#[derive(Clone, Copy, Debug, PartialEq, Eq, Structural)]
pub enum Symbol {
    LParen,
    RParen,
    LBracket,
    RBracket,
    LBrace,
    RBrace,
    Comma,
    Colon,
    Dot,
    Assign,
    Equal,
    NotEqual,
    Less,
    LessEqual,
    Greater,
    GreaterEqual,
    Plus,
    Minus,
    Star,
    Slash,
    Caret,
}

/// What a lexeme is.
#[derive(Debug)]
pub enum LexKind {
    /// An identifier or keyword.
    Word(String),
    /// The digits of an integer literal, as a magnitude.
    Number(i64),
    /// The text of a float literal.
    Decimal(String),
    /// The contents of a string literal.
    Text(String),
    /// The text of a `--` comment.
    Remark(String),
    Sym(Symbol),
}

/// A lexeme, and whether it follows the previous one with no space between.
#[derive(Debug)]
pub struct Lexeme {
    pub kind: LexKind,
    pub glued: bool,
}

pub open spec fn is_letter(c: char) -> bool {
    ('a' <= c && c <= 'z') || ('A' <= c && c <= 'Z')
}

pub open spec fn is_digit(c: char) -> bool {
    '0' <= c && c <= '9'
}

pub open spec fn is_word_start(c: char) -> bool {
    is_letter(c) || c == '_'
}

pub open spec fn is_word_char(c: char) -> bool {
    is_letter(c) || is_digit(c) || c == '_'
}

pub open spec fn is_space(c: char) -> bool {
    c == ' ' || c == '\t' || c == '\n' || c == '\r'
}

pub open spec fn is_remark_char(c: char) -> bool {
    is_letter(c) || is_digit(c) || c == ' ' || c == ','
}

/// A lexeme with its strings seen as their text, and its glued flag.
pub enum LexView {
    Word(Seq<char>),
    Number(int),
    Decimal(Seq<char>),
    Text(Seq<char>),
    Remark(Seq<char>),
    Sym(Symbol),
}

pub open spec fn lex_view(l: Lexeme) -> (LexView, bool) {
    (
        match l.kind {
            LexKind::Word(w) => LexView::Word(w@),
            LexKind::Number(n) => LexView::Number(n as int),
            LexKind::Decimal(d) => LexView::Decimal(d@),
            LexKind::Text(t) => LexView::Text(t@),
            LexKind::Remark(r) => LexView::Remark(r@),
            LexKind::Sym(s) => LexView::Sym(s),
        },
        l.glued,
    )
}

pub open spec fn lex_views(ls: Seq<Lexeme>) -> Seq<(LexView, bool)> {
    ls.map_values(|l: Lexeme| lex_view(l))
}

/// The end of the run of identifier characters from `i`.
pub open spec fn word_end(src: Seq<char>, i: int) -> int
    decreases src.len() - i,
{
    if 0 <= i < src.len() && is_word_char(src[i]) {
        word_end(src, i + 1)
    } else {
        i
    }
}

/// The end of the run of digits from `i`.
pub open spec fn digits_end(src: Seq<char>, i: int) -> int
    decreases src.len() - i,
{
    if 0 <= i < src.len() && is_digit(src[i]) {
        digits_end(src, i + 1)
    } else {
        i
    }
}

/// The first quote at or after `i`, or the end.
pub open spec fn text_end(src: Seq<char>, i: int) -> int
    decreases src.len() - i,
{
    if 0 <= i < src.len() && src[i] != '"' {
        text_end(src, i + 1)
    } else {
        i
    }
}

/// The first line break at or after `i`, or the end.
pub open spec fn line_end(src: Seq<char>, i: int) -> int
    decreases src.len() - i,
{
    if 0 <= i < src.len() && src[i] != '\n' && src[i] != '\r' {
        line_end(src, i + 1)
    } else {
        i
    }
}

/// The value of the digits in `[a, b)`, saturating just past 2^31.
pub open spec fn digits_value(src: Seq<char>, a: int, b: int) -> int
    decreases b - a,
{
    if b <= a {
        0
    } else {
        let v = 10 * digits_value(src, a, b - 1) + (src[b - 1] as int - '0' as int);
        if v > 2147483648 {
            2147483649
        } else {
            v
        }
    }
}

/// The symbol at `i` and its width.
pub open spec fn symbol_at(src: Seq<char>, i: int) -> Option<(Symbol, int)> {
    let c = src[i];
    let n = if i + 1 < src.len() {
        src[i + 1]
    } else {
        ' '
    };
    if c == '=' && n == '=' {
        Some((Symbol::Equal, 2))
    } else if c == '!' && n == '=' {
        Some((Symbol::NotEqual, 2))
    } else if c == '<' && n == '=' {
        Some((Symbol::LessEqual, 2))
    } else if c == '>' && n == '=' {
        Some((Symbol::GreaterEqual, 2))
    } else if c == '=' {
        Some((Symbol::Assign, 1))
    } else if c == '<' {
        Some((Symbol::Less, 1))
    } else if c == '>' {
        Some((Symbol::Greater, 1))
    } else {
        match symbol_char(c) {
            Some(s) => Some((s, 1)),
            None => None,
        }
    }
}

pub open spec fn symbol_char(c: char) -> Option<Symbol> {
    if c == '(' {
        Some(Symbol::LParen)
    } else if c == ')' {
        Some(Symbol::RParen)
    } else if c == '[' {
        Some(Symbol::LBracket)
    } else if c == ']' {
        Some(Symbol::RBracket)
    } else if c == '{' {
        Some(Symbol::LBrace)
    } else if c == '}' {
        Some(Symbol::RBrace)
    } else if c == ',' {
        Some(Symbol::Comma)
    } else if c == ':' {
        Some(Symbol::Colon)
    } else if c == '.' {
        Some(Symbol::Dot)
    } else if c == '+' {
        Some(Symbol::Plus)
    } else if c == '-' {
        Some(Symbol::Minus)
    } else if c == '*' {
        Some(Symbol::Star)
    } else if c == '/' {
        Some(Symbol::Slash)
    } else if c == '^' {
        Some(Symbol::Caret)
    } else {
        None
    }
}

pub open spec fn then_lex(l: (LexView, bool), rest: Option<Seq<(LexView, bool)>>) -> Option<Seq<(LexView, bool)>> {
    match rest {
        Some(r) => Some(seq![l] + r),
        None => None,
    }
}

/// The lexemes of `src` from position `i`; `glued` tells whether no space
/// came before `i`. None where the text holds something no lexeme matches.
pub open spec fn lex_from(src: Seq<char>, i: int, glued: bool) -> Option<Seq<(LexView, bool)>>
    decreases src.len() - i,
{
    if i < 0 || i >= src.len() {
        Some(Seq::empty())
    } else {
        let c = src[i];
        if is_space(c) {
            lex_from(src, i + 1, false)
        } else if is_word_start(c) {
            let j = word_end(src, i + 1);
            if j <= i || j > src.len() { None } else {
                then_lex((LexView::Word(src.subrange(i, j)), glued), lex_from(src, j, true))
            }
        } else if is_digit(c) {
            let j = digits_end(src, i);
            if j <= i || j > src.len() || digits_value(src, i, j) > 2147483648 {
                None
            } else if j + 1 < src.len() && src[j] == '.' && is_digit(src[j + 1]) {
                let k = digits_end(src, j + 1);
                if k <= j || k > src.len() { None } else {
                    then_lex((LexView::Decimal(src.subrange(i, k)), glued), lex_from(src, k, true))
                }
            } else {
                then_lex((LexView::Number(digits_value(src, i, j)), glued), lex_from(src, j, true))
            }
        } else if c == '"' {
            let j = text_end(src, i + 1);
            if j >= src.len() || j <= i {
                None
            } else {
                then_lex((LexView::Text(src.subrange(i + 1, j)), glued), lex_from(src, j + 1, true))
            }
        } else if c == '-' && i + 1 < src.len() && src[i + 1] == '-' {
            let j = line_end(src, i + 2);
            if j <= i || j > src.len() || exists|k: int| i + 2 <= k < j && !is_remark_char(#[trigger] src[k]) {
                None
            } else {
                then_lex((LexView::Remark(src.subrange(i + 2, j)), glued), lex_from(src, j, false))
            }
        } else {
            match symbol_at(src, i) {
                Some((s, w)) => if i + w > src.len() {
                    None
                } else {
                    then_lex((LexView::Sym(s), glued), lex_from(src, i + w, true))
                },
                None => None,
            }
        }
    }
}

fn char_at(src: &str, i: usize) -> (c: char)
    requires
        i < src@.len(),
    ensures
        c == src@[i as int],
{
    src.get_char(i)
}

fn text_between(src: &str, from: usize, to: usize) -> (r: String)
    requires
        from <= to <= src@.len(),
    ensures
        r@ == src@.subrange(from as int, to as int),
{
    src.substring_char(from, to).to_owned()
}

fn symbol_of(c: char) -> (r: Option<Symbol>)
    ensures
        r == symbol_char(c),
{
    if c == '(' {
        Some(Symbol::LParen)
    } else if c == ')' {
        Some(Symbol::RParen)
    } else if c == '[' {
        Some(Symbol::LBracket)
    } else if c == ']' {
        Some(Symbol::RBracket)
    } else if c == '{' {
        Some(Symbol::LBrace)
    } else if c == '}' {
        Some(Symbol::RBrace)
    } else if c == ',' {
        Some(Symbol::Comma)
    } else if c == ':' {
        Some(Symbol::Colon)
    } else if c == '.' {
        Some(Symbol::Dot)
    } else if c == '+' {
        Some(Symbol::Plus)
    } else if c == '-' {
        Some(Symbol::Minus)
    } else if c == '*' {
        Some(Symbol::Star)
    } else if c == '/' {
        Some(Symbol::Slash)
    } else if c == '^' {
        Some(Symbol::Caret)
    } else {
        None
    }
}

pub open spec fn prepend(a: Seq<(LexView, bool)>, o: Option<Seq<(LexView, bool)>>) -> Option<Seq<(LexView, bool)>> {
    match o {
        Some(r) => Some(a + r),
        None => None,
    }
}

proof fn lemma_prepend_step(a: Seq<(LexView, bool)>, l: (LexView, bool), o: Option<Seq<(LexView, bool)>>)
    ensures
        prepend(a, then_lex(l, o)) == prepend(a.push(l), o),
{
    match o {
        Some(r) => {
            assert(a + (seq![l] + r) =~= a.push(l) + r);
        },
        None => {},
    }
}

fn push_lexeme(out: &mut Vec<Lexeme>, l: Lexeme)
    ensures
        lex_views(final(out)@) == lex_views(old(out)@).push(lex_view(l)),
{
    out.push(l);
    assert(lex_views(out@) =~= lex_views(old(out)@).push(lex_view(l)));
}

fn is_digit_exec(c: char) -> (r: bool)
    ensures
        r == is_digit(c),
{
    '0' <= c && c <= '9'
}

fn is_remark_exec(c: char) -> (r: bool)
    ensures
        r == is_remark_char(c),
{
    ('a' <= c && c <= 'z') || ('A' <= c && c <= 'Z') || ('0' <= c && c <= '9') || c == ' ' || c == ','
}

/// Splits source text into lexemes (see `lex_from`). Whitespace separates
/// lexemes and is otherwise dropped; `--` starts a comment that runs to the
/// end of the line.
pub fn tokenize(src: &str) -> (r: Result<Vec<Lexeme>, String>)
    ensures
        match r {
            Ok(ls) => lex_from(src@, 0, false) == Some(lex_views(ls@)),
            Err(_) => lex_from(src@, 0, false) is None,
        },
{
    let n = src.unicode_len();
    let mut out: Vec<Lexeme> = Vec::new();
    let mut i: usize = 0;
    let mut glued = false;
    assert(lex_views(out@) =~= Seq::<(LexView, bool)>::empty());
    assert(Seq::<(LexView, bool)>::empty() + lex_from(src@, 0, false)->Some_0 =~= lex_from(src@, 0, false)->Some_0);
    while i < n
        invariant
            n == src@.len(),
            i <= n,
            lex_from(src@, 0, false) == prepend(lex_views(out@), lex_from(src@, i as int, glued)),
        decreases n - i,
    {
        let ghost at = i as int;
        let ghost g = glued;
        let c = char_at(src, i);
        if c == ' ' || c == '\t' || c == '\n' || c == '\r' {
            glued = false;
            i = i + 1;
            continue;
        }
        if is_word_start_char(c) {
            let start = i;
            i = i + 1;
            while i < n && is_word_char_exec(char_at(src, i))
                invariant
                    n == src@.len(),
                    start < i <= n,
                    word_end(src@, start + 1) == word_end(src@, i as int),
                decreases n - i,
            {
                i = i + 1;
            }
            let w = text_between(src, start, i);
            let l = Lexeme { kind: LexKind::Word(w), glued };
            proof {
                lemma_prepend_step(lex_views(out@), lex_view(l), lex_from(src@, i as int, true));
            }
            push_lexeme(&mut out, l);
            glued = true;
            continue;
        }
        if is_digit_exec(c) {
            let start = i;
            let mut value: i64 = (c as u32 - '0' as u32) as i64;
            i = i + 1;
            assert(digits_value(src@, start as int, start as int) == 0);
            while i < n && is_digit_exec(char_at(src, i))
                invariant
                    n == src@.len(),
                    start < i <= n,
                    digits_end(src@, start as int) == digits_end(src@, i as int),
                    value == digits_value(src@, start as int, i as int),
                    0 <= value <= 2147483649,
                decreases n - i,
            {
                let d = (char_at(src, i) as u32 - '0' as u32) as i64;
                let v = value * 10 + d;
                value = if v > 2147483648 {
                    2147483649
                } else {
                    v
                };
                i = i + 1;
            }
            if value > 2147483648 {
                return Err("integer literal out of range".to_owned());
            }
            if i < n && i + 1 < n && char_at(src, i) == '.' && is_digit_exec(char_at(src, i + 1)) {
                let j = i;
                i = i + 2;
                while i < n && is_digit_exec(char_at(src, i))
                    invariant
                        n == src@.len(),
                        j + 1 < i <= n,
                        digits_end(src@, j + 1) == digits_end(src@, i as int),
                    decreases n - i,
                {
                    i = i + 1;
                }
                let l = Lexeme { kind: LexKind::Decimal(text_between(src, start, i)), glued };
                proof {
                    lemma_prepend_step(lex_views(out@), lex_view(l), lex_from(src@, i as int, true));
                }
                push_lexeme(&mut out, l);
            } else {
                let l = Lexeme { kind: LexKind::Number(value), glued };
                proof {
                    lemma_prepend_step(lex_views(out@), lex_view(l), lex_from(src@, i as int, true));
                }
                push_lexeme(&mut out, l);
            }
            glued = true;
            continue;
        }
        if c == '"' {
            let start = i + 1;
            i = i + 1;
            while i < n && char_at(src, i) != '"'
                invariant
                    n == src@.len(),
                    start <= i <= n,
                    text_end(src@, start as int) == text_end(src@, i as int),
                decreases n - i,
            {
                i = i + 1;
            }
            if i >= n {
                return Err("unterminated string literal".to_owned());
            }
            let l = Lexeme { kind: LexKind::Text(text_between(src, start, i)), glued };
            proof {
                lemma_prepend_step(lex_views(out@), lex_view(l), lex_from(src@, i + 1, true));
            }
            push_lexeme(&mut out, l);
            i = i + 1;
            glued = true;
            continue;
        }
        if c == '-' && i + 1 < n && char_at(src, i + 1) == '-' {
            let start = i + 2;
            i = i + 2;
            let mut ok = true;
            while i < n && char_at(src, i) != '\n' && char_at(src, i) != '\r'
                invariant
                    n == src@.len(),
                    start <= i <= n,
                    line_end(src@, start as int) == line_end(src@, i as int),
                    ok <==> forall|k: int| start <= k < i ==> is_remark_char(#[trigger] src@[k]),
                decreases n - i,
            {
                ok = ok && is_remark_exec(char_at(src, i));
                i = i + 1;
            }
            if !ok {
                return Err("unexpected character in a comment".to_owned());
            }
            let l = Lexeme { kind: LexKind::Remark(text_between(src, start, i)), glued };
            proof {
                lemma_prepend_step(lex_views(out@), lex_view(l), lex_from(src@, i as int, false));
            }
            push_lexeme(&mut out, l);
            glued = false;
            continue;
        }
        let next = if i + 1 < n {
            char_at(src, i + 1)
        } else {
            ' '
        };
        let found: Option<(Symbol, usize)> = if c == '=' && next == '=' {
            Some((Symbol::Equal, 2))
        } else if c == '!' && next == '=' {
            Some((Symbol::NotEqual, 2))
        } else if c == '<' && next == '=' {
            Some((Symbol::LessEqual, 2))
        } else if c == '>' && next == '=' {
            Some((Symbol::GreaterEqual, 2))
        } else if c == '=' {
            Some((Symbol::Assign, 1))
        } else if c == '<' {
            Some((Symbol::Less, 1))
        } else if c == '>' {
            Some((Symbol::Greater, 1))
        } else {
            match symbol_of(c) {
                Some(s) => Some((s, 1)),
                None => None,
            }
        };
        match found {
            Some((sym, width)) => {
                if width > n - i {
                    return Err("unexpected end of input".to_owned());
                }
                let l = Lexeme { kind: LexKind::Sym(sym), glued };
                proof {
                    lemma_prepend_step(lex_views(out@), lex_view(l), lex_from(src@, i + width, true));
                }
                push_lexeme(&mut out, l);
                i = i + width;
                glued = true;
            },
            None => {
                return Err("unexpected character".to_owned());
            },
        }
    }
    assert(lex_views(out@) + Seq::<(LexView, bool)>::empty() =~= lex_views(out@));
    Ok(out)
}

fn is_word_start_char(c: char) -> (r: bool)
    ensures
        r == is_word_start(c),
{
    ('a' <= c && c <= 'z') || ('A' <= c && c <= 'Z') || c == '_'
}

fn is_word_char_exec(c: char) -> (r: bool)
    ensures
        r == is_word_char(c),
{
    ('a' <= c && c <= 'z') || ('A' <= c && c <= 'Z') || ('0' <= c && c <= '9') || c == '_'
}

} // verus!
