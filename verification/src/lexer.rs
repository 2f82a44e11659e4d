//! Turns source text into tokens, taking the longest token at each position.
use vstd::prelude::*;
use crate::token::{Token, TokenView};
use crate::text::{chars_to_string, str_to_chars};

verus! {

/// Where the source holds no token.
#[derive(Debug, Clone, Copy, PartialEq, Eq, Structural)]
pub struct LexError {
    /// The index, in characters, at which no token starts.
    pub position: usize,
}

pub open spec fn is_digit(c: char) -> bool {
    '0' <= c && c <= '9'
}

pub open spec fn is_ident_start(c: char) -> bool {
    ('a' <= c && c <= 'z') || ('A' <= c && c <= 'Z') || c == '_'
}

pub open spec fn is_ident_char(c: char) -> bool {
    is_ident_start(c) || is_digit(c)
}

/// The characters skipped between tokens: space, tab, newline, carriage return, form feed.
pub open spec fn is_blank(c: char) -> bool {
    c == ' ' || c == '\t' || c == '\n' || c == '\r' || c == '\x0C'
}

/// Unicode white space (the characters `char::is_whitespace` accepts).
pub open spec fn is_unicode_space(c: char) -> bool {
    ('\t' <= c && c <= '\r') || c == ' ' || c == '\u{85}' || c == '\u{A0}' || c == '\u{1680}'
        || ('\u{2000}' <= c && c <= '\u{200A}') || c == '\u{2028}' || c == '\u{2029}'
        || c == '\u{202F}' || c == '\u{205F}' || c == '\u{3000}'
}

/// Character classes scanned in runs: 0 digits, 1 identifier characters, 2 anything but a newline.
pub open spec fn in_class(c: char, class: u8) -> bool {
    if class == 0 { is_digit(c) } else if class == 1 { is_ident_char(c) } else { c != '\n' }
}

/// The length of the run of `class` characters starting at `i`.
pub open spec fn run(s: Seq<char>, i: int, class: u8) -> nat
    decreases s.len() - i,
{
    if 0 <= i < s.len() && in_class(s[i], class) { 1 + run(s, i + 1, class) } else { 0 }
}

/// The position of the next token at or after `i`: blanks and `--` comments (to the end
/// of their line) are skipped.
pub open spec fn skip(s: Seq<char>, i: int) -> int
    decreases s.len() - i,
{
    if 0 <= i < s.len() && is_blank(s[i]) {
        skip(s, i + 1)
    } else if 0 <= i && i + 1 < s.len() && s[i] == '-' && s[i + 1] == '-' {
        proof {
            lemma_run_bound(s, i + 2, 2);
        }
        skip(s, i + 2 + run(s, i + 2, 2))
    } else {
        i
    }
}

/// The token a word stands for: a keyword, or else an identifier.
pub open spec fn keyword_or_ident(w: Seq<char>) -> TokenView {
    if w == "function"@ { TokenView::Function }
    else if w == "return"@ { TokenView::Return }
    else if w == "local"@ { TokenView::Local }
    else if w == "global"@ { TokenView::Global }
    else if w == "if"@ { TokenView::If }
    else if w == "then"@ { TokenView::Then }
    else if w == "else"@ { TokenView::Else }
    else if w == "elseif"@ { TokenView::ElseIf }
    else if w == "while"@ { TokenView::While }
    else if w == "do"@ { TokenView::Do }
    else if w == "end"@ { TokenView::End }
    else if w == "nil"@ { TokenView::Nil }
    else if w == "true"@ { TokenView::True }
    else if w == "false"@ { TokenView::False }
    else { TokenView::Identifier(w) }
}

/// The length of a number literal starting with a digit at `i`: digits, then a point
/// and more digits when a digit follows the point.
pub open spec fn number_len(s: Seq<char>, i: int) -> nat {
    let d = run(s, i, 0);
    if i + d + 1 < s.len() && s[i + d] == '.' && is_digit(s[i + d + 1]) {
        d + 1 + run(s, i + d + 1, 0)
    } else {
        d
    }
}

/// The index of the closing quote of a string literal whose body starts at `j`:
/// a backslash takes the next character with it, unless that is a newline.
pub open spec fn string_end(s: Seq<char>, j: int) -> Option<int>
    decreases s.len() - j,
{
    if j < 0 || j >= s.len() {
        None
    } else if s[j] == '"' {
        Some(j)
    } else if s[j] == '\\' {
        if j + 1 < s.len() && s[j + 1] != '\n' { string_end(s, j + 2) } else { None }
    } else {
        string_end(s, j + 1)
    }
}

/// The character an escape sequence `\e` stands for.
pub open spec fn escaped(e: char) -> char {
    if e == 'n' { '\n' } else if e == 't' { '\t' } else if e == 'r' { '\r' } else { e }
}

/// The characters a string literal's body stands for, escapes resolved.
pub open spec fn unescape(b: Seq<char>) -> Seq<char>
    decreases b.len(),
{
    if b.len() == 0 {
        Seq::empty()
    } else if b[0] == '\\' {
        if b.len() >= 2 { seq![escaped(b[1])] + unescape(b.skip(2)) } else { Seq::empty() }
    } else {
        seq![b[0]] + unescape(b.skip(1))
    }
}

/// Escape decoding: in a string literal's body, `\n`, `\t` and `\r` stand for a
/// newline, a tab and a carriage return, a backslash before any other character stands
/// for that character, and a character that is not a backslash stands for itself;
/// the rest of the body is decoded the same way.
pub proof fn lemma_unescape_laws(rest: Seq<char>, x: char, c: char)
    ensures
        unescape(seq!['\\', 'n'] + rest) == seq!['\n'] + unescape(rest),
        unescape(seq!['\\', 't'] + rest) == seq!['\t'] + unescape(rest),
        unescape(seq!['\\', 'r'] + rest) == seq!['\r'] + unescape(rest),
        x != 'n' && x != 't' && x != 'r' ==> unescape(seq!['\\', x] + rest) == seq![x] + unescape(rest),
        c != '\\' ==> unescape(seq![c] + rest) == seq![c] + unescape(rest),
        unescape(Seq::<char>::empty()) == Seq::<char>::empty(),
{
    assert((seq!['\\', 'n'] + rest).skip(2) =~= rest);
    assert((seq!['\\', 't'] + rest).skip(2) =~= rest);
    assert((seq!['\\', 'r'] + rest).skip(2) =~= rest);
    assert((seq!['\\', x] + rest).skip(2) =~= rest);
    assert((seq![c] + rest).skip(1) =~= rest);
}

/// A body without backslashes stands for itself.
pub proof fn lemma_unescape_plain(b: Seq<char>)
    requires
        forall|i: int| 0 <= i < b.len() ==> b[i] != '\\',
    ensures
        unescape(b) == b,
    decreases b.len(),
{
    if b.len() > 0 {
        lemma_unescape_plain(b.skip(1));
        assert(seq![b[0]] + b.skip(1) =~= b);
    }
}

/// The index of the `?` of the `?>` that closes an embedded block, scanning from `j`:
/// a `?` not followed by `>` takes the next character with it.
pub open spec fn guest_end(s: Seq<char>, j: int) -> Option<int>
    decreases s.len() - j,
{
    if j < 0 || j >= s.len() {
        None
    } else if s[j] == '?' {
        if j + 1 < s.len() {
            if s[j + 1] == '>' { Some(j) } else { guest_end(s, j + 2) }
        } else {
            None
        }
    } else {
        guest_end(s, j + 1)
    }
}

/// The first index at or after `k` holding Unicode white space.
pub open spec fn first_space(s: Seq<char>, k: int) -> Option<int>
    decreases s.len() - k,
{
    if k < 0 || k >= s.len() {
        None
    } else if is_unicode_space(s[k]) {
        Some(k)
    } else {
        first_space(s, k + 1)
    }
}

pub open spec fn trim_start(s: Seq<char>) -> Seq<char>
    decreases s.len(),
{
    if s.len() > 0 && is_unicode_space(s[0]) { trim_start(s.skip(1)) } else { s }
}

pub open spec fn trim_end(s: Seq<char>) -> Seq<char>
    decreases s.len(),
{
    if s.len() > 0 && is_unicode_space(s.last()) { trim_end(s.drop_last()) } else { s }
}

/// `s` without Unicode white space at either end.
pub open spec fn trim(s: Seq<char>) -> Seq<char> {
    trim_end(trim_start(s))
}

/// An embedded block `<?name code?>` starting at `i`, if one does: its token and length.
/// The block's content splits at its first white space into the language name and the
/// code, trimmed; a content with no white space stands for no token.
pub open spec fn guest_at(s: Seq<char>, i: int) -> Option<Option<(TokenView, nat)>> {
    if i + 2 < s.len() && s[i] == '<' && s[i + 1] == '?' && is_ident_start(s[i + 2]) {
        match guest_end(s, i + 3) {
            Some(q) => {
                let inner = s.subrange(i + 2, q);
                match first_space(inner, 0) {
                    Some(w) => Some(Some((TokenView::GuestBlock(inner.take(w), trim(inner.skip(w))), (q + 2 - i) as nat))),
                    None => Some(None),
                }
            },
            None => None,
        }
    } else {
        None
    }
}

/// The longest token that starts at `i` and its length, or `None` where no token starts.
pub open spec fn lex_at(s: Seq<char>, i: int) -> Option<(TokenView, nat)> {
    let c = s[i];
    let next_is = |d: char| i + 1 < s.len() && s[i + 1] == d;
    if is_ident_start(c) {
        let n = 1 + run(s, i + 1, 1);
        Some((keyword_or_ident(s.subrange(i, i + n)), n))
    } else if is_digit(c) {
        let n = number_len(s, i);
        Some((TokenView::Numeral(s.subrange(i, i + n)), n))
    } else if c == '"' {
        match string_end(s, i + 1) {
            Some(e) => Some((TokenView::String(unescape(s.subrange(i + 1, e))), (e + 1 - i) as nat)),
            None => None,
        }
    } else if c == '<' {
        match guest_at(s, i) {
            Some(g) => g,
            None => if next_is('=') { Some((TokenView::LessEq, 2)) } else { Some((TokenView::Less, 1)) },
        }
    } else if c == '=' {
        if next_is('=') { Some((TokenView::Equal, 2)) } else { Some((TokenView::Assign, 1)) }
    } else if c == '~' {
        if next_is('=') { Some((TokenView::NotEqual, 2)) } else { None }
    } else if c == '>' {
        if next_is('=') { Some((TokenView::MoreEq, 2)) } else { Some((TokenView::More, 1)) }
    } else if c == '.' {
        if next_is('.') { Some((TokenView::Concat, 2)) } else { Some((TokenView::Dot, 1)) }
    } else if c == ',' { Some((TokenView::Comma, 1)) }
    else if c == '*' { Some((TokenView::Multiply, 1)) }
    else if c == '/' { Some((TokenView::Divide, 1)) }
    else if c == '+' { Some((TokenView::Plus, 1)) }
    else if c == '-' { Some((TokenView::Minus, 1)) }
    else if c == '^' { Some((TokenView::Exponent, 1)) }
    else if c == '(' { Some((TokenView::ParenthesisOpen, 1)) }
    else if c == ')' { Some((TokenView::ParenthesisClose, 1)) }
    else if c == '[' { Some((TokenView::SquareBracketOpen, 1)) }
    else if c == ']' { Some((TokenView::SquareBracketClose, 1)) }
    else if c == '{' { Some((TokenView::CurlyBracketOpen, 1)) }
    else if c == '}' { Some((TokenView::CurlyBracketClose, 1)) }
    else { None }
}

/// The tokens of `s` from position `i` on, or the position where no token starts.
pub open spec fn spec_tokenize(s: Seq<char>, i: int) -> Result<Seq<TokenView>, usize>
    decreases s.len() - i,
{
    let j = skip(s, i);
    if j < i || j >= s.len() {
        Ok(Seq::empty())
    } else {
        match lex_at(s, j) {
            None => Err(j as usize),
            Some((t, n)) => if n == 0 || j + n > s.len() { Err(j as usize) } else {
                match spec_tokenize(s, j + n) {
                    Ok(rest) => Ok(seq![t] + rest),
                    Err(e) => Err(e),
                }
            },
        }
    }
}

pub proof fn lemma_run_bound(s: Seq<char>, i: int, class: u8)
    requires
        0 <= i <= s.len(),
    ensures
        i + run(s, i, class) <= s.len(),
    decreases s.len() - i,
{
    if i < s.len() && in_class(s[i], class) {
        lemma_run_bound(s, i + 1, class);
    }
}

pub proof fn lemma_skip_bound(s: Seq<char>, i: int)
    requires
        0 <= i <= s.len(),
    ensures
        i <= skip(s, i) <= s.len(),
    decreases s.len() - i,
{
    if i < s.len() && is_blank(s[i]) {
        lemma_skip_bound(s, i + 1);
    } else if i + 1 < s.len() && s[i] == '-' && s[i + 1] == '-' {
        lemma_run_bound(s, i + 2, 2);
        lemma_skip_bound(s, i + 2 + run(s, i + 2, 2));
    }
}

fn class_has(c: char, class: u8) -> (b: bool)
    ensures
        b == in_class(c, class),
{
    if class == 0 {
        '0' <= c && c <= '9'
    } else if class == 1 {
        ('a' <= c && c <= 'z') || ('A' <= c && c <= 'Z') || c == '_' || ('0' <= c && c <= '9')
    } else {
        c != '\n'
    }
}

/// The end of the run of `class` characters starting at `i`.
fn scan(s: &Vec<char>, i: usize, class: u8) -> (j: usize)
    requires
        i <= s@.len(),
    ensures
        j == i + run(s@, i as int, class),
        j <= s@.len(),
{
    let mut j = i;
    while j < s.len() && class_has(s[j], class)
        invariant
            i <= j <= s@.len(),
            run(s@, i as int, class) == (j - i) + run(s@, j as int, class),
        decreases s@.len() - j,
    {
        j += 1;
    }
    j
}

fn skip_exec(s: &Vec<char>, i: usize) -> (j: usize)
    requires
        i <= s@.len(),
    ensures
        j == skip(s@, i as int),
        i <= j <= s@.len(),
{
    let mut j = i;
    proof {
        lemma_skip_bound(s@, i as int);
    }
    loop
        invariant
            i <= j <= s@.len(),
            skip(s@, i as int) == skip(s@, j as int),
        decreases s@.len() - j,
    {
        if j < s.len() && (s[j] == ' ' || s[j] == '\t' || s[j] == '\n' || s[j] == '\r' || s[j] == '\x0C') {
            j += 1;
        } else if j < s.len() && j + 1 < s.len() && s[j] == '-' && s[j + 1] == '-' {
            let e = scan(s, j + 2, 2);
            j = e;
        } else {
            return j;
        }
    }
}

/// A string holding `s[a..b]`.
fn slice_string(s: &Vec<char>, a: usize, b: usize) -> (r: String)
    requires
        a <= b <= s@.len(),
    ensures
        r@ == s@.subrange(a as int, b as int),
{
    let mut v: Vec<char> = Vec::new();
    let mut k = a;
    while k < b
        invariant
            a <= k <= b <= s@.len(),
            v@ == s@.subrange(a as int, k as int),
        decreases b - k,
    {
        v.push(s[k]);
        assert(v@ =~= s@.subrange(a as int, k + 1));
        k += 1;
    }
    chars_to_string(&v)
}

/// Whether `s[a..b]` spells `lit`.
fn spells(s: &Vec<char>, a: usize, b: usize, lit: &str) -> (r: bool)
    requires
        a <= b <= s@.len(),
    ensures
        r == (s@.subrange(a as int, b as int) == lit@),
{
    let lc = str_to_chars(lit);
    if b - a != lc.len() {
        assert(s@.subrange(a as int, b as int).len() != lit@.len());
        return false;
    }
    let mut k: usize = 0;
    while k < lc.len()
        invariant
            k <= lc@.len(),
            lc@ == lit@,
            b - a == lc@.len(),
            a <= b <= s@.len(),
            forall|q: int| 0 <= q < k ==> s@[a + q] == lc@[q],
        decreases lc@.len() - k,
    {
        if s[a + k] != lc[k] {
            assert(s@.subrange(a as int, b as int)[k as int] != lit@[k as int]);
            return false;
        }
        k += 1;
    }
    assert(s@.subrange(a as int, b as int) =~= lit@);
    true
}

fn word_token(s: &Vec<char>, a: usize, b: usize) -> (t: Token)
    requires
        a <= b <= s@.len(),
    ensures
        t@ == keyword_or_ident(s@.subrange(a as int, b as int)),
{
    if spells(s, a, b, "function") { Token::Function }
    else if spells(s, a, b, "return") { Token::Return }
    else if spells(s, a, b, "local") { Token::Local }
    else if spells(s, a, b, "global") { Token::Global }
    else if spells(s, a, b, "if") { Token::If }
    else if spells(s, a, b, "then") { Token::Then }
    else if spells(s, a, b, "else") { Token::Else }
    else if spells(s, a, b, "elseif") { Token::ElseIf }
    else if spells(s, a, b, "while") { Token::While }
    else if spells(s, a, b, "do") { Token::Do }
    else if spells(s, a, b, "end") { Token::End }
    else if spells(s, a, b, "nil") { Token::Nil }
    else if spells(s, a, b, "true") { Token::True }
    else if spells(s, a, b, "false") { Token::False }
    else { Token::Identifier(slice_string(s, a, b)) }
}

fn string_end_exec(s: &Vec<char>, j0: usize) -> (r: Option<usize>)
    requires
        j0 <= s@.len(),
    ensures
        match string_end(s@, j0 as int) {
            Some(e) => r == Some(e as usize) && j0 <= e < s@.len(),
            None => r is None,
        },
{
    let mut j = j0;
    while j < s.len()
        invariant
            j0 <= j <= s@.len() + 1,
            string_end(s@, j0 as int) == string_end(s@, j as int),
        decreases s@.len() + 1 - j,
    {
        if s[j] == '"' {
            return Some(j);
        } else if s[j] == '\\' {
            if j + 1 < s.len() && s[j + 1] != '\n' {
                j += 2;
            } else {
                return None;
            }
        } else {
            j += 1;
        }
    }
    None
}

proof fn lemma_unescape_step(b: Seq<char>, k: int)
    requires
        0 <= k < b.len(),
    ensures
        b[k] != '\\' ==> unescape(b.skip(k)) == seq![b[k]] + unescape(b.skip(k + 1)),
        b[k] == '\\' && k + 1 < b.len() ==> unescape(b.skip(k)) == seq![escaped(b[k + 1])] + unescape(b.skip(k + 2)),
        b[k] == '\\' && k + 1 >= b.len() ==> unescape(b.skip(k)) == Seq::<char>::empty(),
{
    let t = b.skip(k);
    assert(t[0] == b[k]);
    assert(t.skip(1) =~= b.skip(k + 1));
    if k + 1 < b.len() {
        assert(t[1] == b[k + 1]);
        assert(t.skip(2) =~= b.skip(k + 2));
    }
}

/// The characters of the string literal body `s[a..e]`, escapes resolved.
fn unescape_exec(s: &Vec<char>, a: usize, e: usize) -> (r: String)
    requires
        a <= e <= s@.len(),
    ensures
        r@ == unescape(s@.subrange(a as int, e as int)),
{
    let ghost b = s@.subrange(a as int, e as int);
    let mut out: Vec<char> = Vec::new();
    let mut k = a;
    proof {
        assert(b.skip(0) =~= b);
        assert(out@ + unescape(b) =~= unescape(b));
    }
    while k < e
        invariant
            a <= k <= e <= s@.len(),
            b == s@.subrange(a as int, e as int),
            unescape(b) == out@ + unescape(b.skip(k - a)),
        decreases e - k,
    {
        proof {
            lemma_unescape_step(b, k - a);
        }
        let c = s[k];
        if c == '\\' {
            if k + 1 < e {
                let x = s[k + 1];
                let m = if x == 'n' { '\n' } else if x == 't' { '\t' } else if x == 'r' { '\r' } else { x };
                out.push(m);
                k += 2;
            } else {
                proof {
                    assert(b.skip(e - a) =~= Seq::<char>::empty());
                }
                k = e;
            }
        } else {
            out.push(c);
            k += 1;
        }
        proof {
            assert(unescape(b) =~= out@ + unescape(b.skip(k - a)));
        }
    }
    proof {
        assert(b.skip(e - a) =~= Seq::<char>::empty());
        assert(out@ =~= out@ + unescape(b.skip(e - a)));
    }
    chars_to_string(&out)
}

/// The content of a lexing result.
pub open spec fn tok_res(r: Option<(Token, usize)>) -> Option<(TokenView, nat)> {
    match r {
        Some((t, n)) => Some((t@, n as nat)),
        None => None,
    }
}

fn is_space_exec(c: char) -> (b: bool)
    ensures
        b == is_unicode_space(c),
{
    ('\t' <= c && c <= '\r') || c == ' ' || c == '\u{85}' || c == '\u{A0}' || c == '\u{1680}'
        || ('\u{2000}' <= c && c <= '\u{200A}') || c == '\u{2028}' || c == '\u{2029}'
        || c == '\u{202F}' || c == '\u{205F}' || c == '\u{3000}'
}

fn guest_end_exec(s: &Vec<char>, j0: usize) -> (r: Option<usize>)
    requires
        j0 <= s@.len(),
    ensures
        match guest_end(s@, j0 as int) {
            Some(e) => r == Some(e as usize) && j0 <= e && e + 1 < s@.len(),
            None => r is None,
        },
{
    let mut j = j0;
    while j < s.len()
        invariant
            j0 <= j <= s@.len() + 1,
            guest_end(s@, j0 as int) == guest_end(s@, j as int),
        decreases s@.len() + 1 - j,
    {
        if s[j] == '?' {
            if j + 1 < s.len() {
                if s[j + 1] == '>' {
                    return Some(j);
                } else {
                    j += 2;
                }
            } else {
                return None;
            }
        } else {
            j += 1;
        }
    }
    None
}

proof fn lemma_first_space(x: Seq<char>, k: int, w: int)
    requires
        0 <= k <= w <= x.len(),
        forall|q: int| k <= q < w ==> !is_unicode_space(#[trigger] x[q]),
    ensures
        first_space(x, k) == first_space(x, w),
    decreases w - k,
{
    if k < w {
        lemma_first_space(x, k + 1, w);
    }
}

proof fn lemma_trim_start(x: Seq<char>, k: int)
    requires
        0 <= k <= x.len(),
        forall|q: int| 0 <= q < k ==> is_unicode_space(#[trigger] x[q]),
        k == x.len() || !is_unicode_space(x[k]),
    ensures
        trim_start(x) == x.skip(k),
    decreases k,
{
    if k > 0 {
        let y = x.skip(1);
        assert forall|q: int| 0 <= q < k - 1 implies is_unicode_space(#[trigger] y[q]) by {
            assert(y[q] == x[q + 1]);
        }
        if k < x.len() {
            assert(y[k - 1] == x[k]);
        }
        lemma_trim_start(y, k - 1);
        assert(y.skip(k - 1) =~= x.skip(k));
    } else {
        assert(x.skip(0) =~= x);
    }
}

proof fn lemma_trim_end(x: Seq<char>, m: int)
    requires
        0 <= m <= x.len(),
        forall|q: int| m <= q < x.len() ==> is_unicode_space(#[trigger] x[q]),
        m == 0 || !is_unicode_space(x[m - 1]),
    ensures
        trim_end(x) == x.take(m),
    decreases x.len() - m,
{
    if m < x.len() {
        let y = x.drop_last();
        assert forall|q: int| m <= q < y.len() implies is_unicode_space(#[trigger] y[q]) by {
            assert(y[q] == x[q]);
        }
        if m > 0 {
            assert(y[m - 1] == x[m - 1]);
        }
        lemma_trim_end(y, m);
        assert(y.take(m) =~= x.take(m));
    } else {
        assert(x.take(m) =~= x);
    }
}

/// The embedded block starting at `i`, as `guest_at` describes it.
fn guest_exec(s: &Vec<char>, i: usize) -> (r: Option<Option<(Token, usize)>>)
    requires
        i < s@.len(),
    ensures
        match guest_at(s@, i as int) {
            Some(g) => r matches Some(x) && tok_res(x) == g,
            None => r is None,
        },
        r matches Some(Some((_, n))) ==> 0 < n && i + n <= s@.len(),
{
    if !(s.len() - i > 2 && s[i] == '<' && s[i + 1] == '?'
        && (('a' <= s[i + 2] && s[i + 2] <= 'z') || ('A' <= s[i + 2] && s[i + 2] <= 'Z') || s[i + 2] == '_')) {
        return None;
    }
    let q = match guest_end_exec(s, i + 3) {
        Some(q) => q,
        None => { return None; }
    };
    let ghost inner = s@.subrange(i + 2, q as int);
    // The first white space of the block's content.
    let mut w = i + 2;
    while w < q && !is_space_exec(s[w])
        invariant
            i + 2 <= w <= q,
            q < s@.len(),
            inner == s@.subrange(i + 2, q as int),
            forall|p: int| 0 <= p < w - (i + 2) ==> !is_unicode_space(#[trigger] inner[p]),
        decreases q - w,
    {
        w += 1;
    }
    proof {
        lemma_first_space(inner, 0, w - (i + 2));
    }
    if w == q {
        return Some(None);
    }
    let lang = slice_string(s, i + 2, w);
    let mut ts = w;
    while ts < q && is_space_exec(s[ts])
        invariant
            w <= ts <= q,
            q < s@.len(),
            forall|p: int| w <= p < ts ==> is_unicode_space(#[trigger] s@[p]),
        decreases q - ts,
    {
        ts += 1;
    }
    let mut te = q;
    while te > ts && is_space_exec(s[te - 1])
        invariant
            ts <= te <= q,
            q < s@.len(),
            forall|p: int| te <= p < q ==> is_unicode_space(#[trigger] s@[p]),
        decreases te - ts,
    {
        te -= 1;
    }
    let code = slice_string(s, ts, te);
    proof {
        let tail = inner.skip(w - (i + 2));
        assert(tail =~= s@.subrange(w as int, q as int));
        assert(inner.take(w - (i + 2)) =~= s@.subrange(i + 2, w as int));
        lemma_trim_start(tail, ts - w);
        let mid = tail.skip(ts - w);
        assert(mid =~= s@.subrange(ts as int, q as int));
        lemma_trim_end(mid, te - ts);
        assert(mid.take(te - ts) =~= s@.subrange(ts as int, te as int));
    }
    Some(Some((Token::GuestBlock((lang, code)), q + 2 - i)))
}

/// The longest token starting at `i`, as `lex_at` describes it.
fn lex_at_exec(s: &Vec<char>, i: usize) -> (r: Option<(Token, usize)>)
    requires
        i < s@.len(),
    ensures
        tok_res(r) == lex_at(s@, i as int),
        r matches Some((_, n)) ==> 0 < n && i + n <= s@.len(),
{
    let c = s[i];
    let has_next = s.len() - i > 1;
    if ('a' <= c && c <= 'z') || ('A' <= c && c <= 'Z') || c == '_' {
        let e = scan(s, i + 1, 1);
        Some((word_token(s, i, e), e - i))
    } else if '0' <= c && c <= '9' {
        let d = scan(s, i, 0);
        let e = if d < s.len() && s.len() - d > 1 && s[d] == '.' && '0' <= s[d + 1] && s[d + 1] <= '9' {
            scan(s, d + 1, 0)
        } else {
            d
        };
        Some((Token::Numeral(slice_string(s, i, e)), e - i))
    } else if c == '"' {
        match string_end_exec(s, i + 1) {
            Some(e) => Some((Token::String(unescape_exec(s, i + 1, e)), e + 1 - i)),
            None => None,
        }
    } else if c == '<' {
        match guest_exec(s, i) {
            Some(g) => g,
            None => if has_next && s[i + 1] == '=' { Some((Token::LessEq, 2)) } else { Some((Token::Less, 1)) },
        }
    } else if c == '=' {
        if has_next && s[i + 1] == '=' { Some((Token::Equal, 2)) } else { Some((Token::Assign, 1)) }
    } else if c == '~' {
        if has_next && s[i + 1] == '=' { Some((Token::NotEqual, 2)) } else { None }
    } else if c == '>' {
        if has_next && s[i + 1] == '=' { Some((Token::MoreEq, 2)) } else { Some((Token::More, 1)) }
    } else if c == '.' {
        if has_next && s[i + 1] == '.' { Some((Token::Concat, 2)) } else { Some((Token::Dot, 1)) }
    } else if c == ',' { Some((Token::Comma, 1)) }
    else if c == '*' { Some((Token::Multiply, 1)) }
    else if c == '/' { Some((Token::Divide, 1)) }
    else if c == '+' { Some((Token::Plus, 1)) }
    else if c == '-' { Some((Token::Minus, 1)) }
    else if c == '^' { Some((Token::Exponent, 1)) }
    else if c == '(' { Some((Token::ParenthesisOpen, 1)) }
    else if c == ')' { Some((Token::ParenthesisClose, 1)) }
    else if c == '[' { Some((Token::SquareBracketOpen, 1)) }
    else if c == ']' { Some((Token::SquareBracketClose, 1)) }
    else if c == '{' { Some((Token::CurlyBracketOpen, 1)) }
    else if c == '}' { Some((Token::CurlyBracketClose, 1)) }
    else { None }
}

/// The content of a token list.
pub open spec fn tokens_view(ts: Seq<Token>) -> Seq<TokenView> {
    ts.map_values(|t: Token| t@)
}

/// Splits source code into tokens, taking the longest token at each position and
/// skipping blanks and `--` comments. Number literals come out as `Numeral`s.
/// A character at which no token starts is an error, given with its index in
/// characters: the code cannot be run, and the caller must stop there (the program
/// reports the character, its index and the text around it, and ends).
pub fn tokenize(code: &str) -> (r: Result<Vec<Token>, LexError>)
    ensures
        match spec_tokenize(code@, 0) {
            Ok(ts) => r matches Ok(v) && tokens_view(v@) == ts,
            Err(p) => r == Err::<Vec<Token>, LexError>(LexError { position: p }),
        },
{
    let s = str_to_chars(code);
    let mut out: Vec<Token> = Vec::new();
    let mut i: usize = 0;
    proof {
        assert(tokens_view(out@) =~= Seq::<TokenView>::empty());
        match spec_tokenize(s@, 0) {
            Ok(ts) => assert(Seq::<TokenView>::empty() + ts =~= ts),
            Err(_) => {},
        }
    }
    loop
        invariant
            i <= s@.len(),
            s@ == code@,
            match spec_tokenize(s@, i as int) {
                Ok(rest) => spec_tokenize(s@, 0) == Ok::<Seq<TokenView>, usize>(tokens_view(out@) + rest),
                Err(p) => spec_tokenize(s@, 0) == Err::<Seq<TokenView>, usize>(p),
            },
        decreases s@.len() - i,
    {
        let j = skip_exec(&s, i);
        if j >= s.len() {
            proof {
                assert(tokens_view(out@) + Seq::<TokenView>::empty() =~= tokens_view(out@));
            }
            return Ok(out);
        }
        match lex_at_exec(&s, j) {
            None => {
                return Err(LexError { position: j });
            }
            Some((t, n)) => {
                let ghost tv = t@;
                let ghost before = out@;
                out.push(t);
                proof {
                    assert(tokens_view(out@) =~= tokens_view(before).push(tv));
                    match spec_tokenize(s@, (j + n) as int) {
                        Ok(rest) => {
                            assert(tokens_view(out@) + rest =~= tokens_view(before) + (seq![tv] + rest));
                        },
                        Err(_) => {},
                    }
                }
                i = j + n;
            }
        }
    }
}

} // verus!
