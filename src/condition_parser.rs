//! The text grammar of conditions:
//!
//! - `cond := Not(cond) | And(cond, cond {, cond}) | Or(cond, cond {, cond}) | identifier`
//! - an identifier starts with a letter and goes on with letters, digits and `_`;
//!   one followed directly by `(` that is not `And`, `Or` or `Not` is an error.
use vstd::prelude::*;

use crate::state_condition::{
    all_views, fmt, fmt_list, kw_and, kw_not, kw_or, lemma_views, CombinationCondition, Cond,
};

verus! {

/// Whether a character has the Unicode `Alphabetic` property.
pub uninterp spec fn alphabetic(c: char) -> bool;

/// Whether a character is alphabetic or numeric in the Unicode sense.
pub uninterp spec fn alphanumeric(c: char) -> bool;

/// Whether a character has the Unicode `White_Space` property (what
/// `char::is_whitespace` tests): these 25 code points.
pub open spec fn whitespace(c: char) -> bool {
    let u = c as u32;
    (0x9 <= u <= 0xD) || u == 0x20 || u == 0x85 || u == 0xA0 || u == 0x1680 || (0x2000 <= u <= 0x200A)
        || u == 0x2028 || u == 0x2029 || u == 0x202F || u == 0x205F || u == 0x3000
}

/// Relies on `char::is_alphabetic`: the Unicode `Alphabetic` property of `c`.
#[verifier::external_body]
fn char_is_alphabetic(c: char) -> (r: bool)
    ensures
        r == alphabetic(c),
{
    c.is_alphabetic()
}

/// Relies on `char::is_alphanumeric`: `Alphabetic` or `Numeric` in Unicode.
#[verifier::external_body]
fn char_is_alphanumeric(c: char) -> (r: bool)
    ensures
        r == alphanumeric(c),
{
    c.is_alphanumeric()
}

fn char_is_whitespace(c: char) -> (r: bool)
    ensures
        r == whitespace(c),
{
    let u = c as u32;
    (0x9 <= u && u <= 0xD) || u == 0x20 || u == 0x85 || u == 0xA0 || u == 0x1680 || (0x2000 <= u
        && u <= 0x200A) || u == 0x2028 || u == 0x2029 || u == 0x202F || u == 0x205F || u == 0x3000
}

pub open spec fn ascii_letter(c: char) -> bool {
    (65 <= c as u32 <= 90) || (97 <= c as u32 <= 122)
}

pub open spec fn ascii_digit(c: char) -> bool {
    48 <= c as u32 <= 57
}

/// The characters with a meaning of their own in the grammar.
pub open spec fn punct(c: char) -> bool {
    c == '(' || c == ')' || c == ',' || c == ' '
}

/// A character that can start an identifier.
pub open spec fn ident_start(c: char) -> bool {
    !punct(c) && (ascii_letter(c) || alphabetic(c))
}

/// A character that can continue an identifier.
pub open spec fn ident_char(c: char) -> bool {
    !punct(c) && (ascii_letter(c) || ascii_digit(c) || c == '_' || alphanumeric(c))
}

fn is_ascii_letter(c: char) -> (r: bool)
    ensures
        r == ascii_letter(c),
{
    let u = c as u32;
    (65 <= u && u <= 90) || (97 <= u && u <= 122)
}

fn is_ident_start(c: char) -> (r: bool)
    ensures
        r == ident_start(c),
{
    if c == '(' || c == ')' || c == ',' || c == ' ' {
        false
    } else {
        is_ascii_letter(c) || char_is_alphabetic(c)
    }
}

fn is_ident_char(c: char) -> (r: bool)
    ensures
        r == ident_char(c),
{
    if c == '(' || c == ')' || c == ',' || c == ' ' {
        false
    } else {
        let u = c as u32;
        is_ascii_letter(c) || (48 <= u && u <= 57) || c == '_' || char_is_alphanumeric(c)
    }
}

/// A token of the condition text. An identifier records whether `(`
/// follows it directly; `Invalid` stands for a character that starts no
/// token, and ends the token stream.
pub enum Token {
    Ident(Seq<char>, bool),
    LParen,
    RParen,
    Comma,
    Invalid,
}

/// The tokens of `s` from position `i`. Blanks are skipped; a character that
/// starts no token gives `Invalid` and ends the token stream.
pub open spec fn lex(s: Seq<char>, i: int) -> Seq<Token>
    decreases s.len() - i, 0nat,
{
    if i < 0 || i >= s.len() {
        Seq::empty()
    } else {
        let c = s[i];
        if c == '(' {
            seq![Token::LParen] + lex(s, i + 1)
        } else if c == ')' {
            seq![Token::RParen] + lex(s, i + 1)
        } else if c == ',' {
            seq![Token::Comma] + lex(s, i + 1)
        } else if c == ' ' {
            lex(s, i + 1)
        } else if ident_start(c) {
            lex_ident(s, i, i + 1)
        } else if whitespace(c) {
            lex(s, i + 1)
        } else {
            seq![Token::Invalid]
        }
    }
}

/// The tokens of `s` from an identifier that started at `start` and whose
/// characters up to `j` have been read.
pub open spec fn lex_ident(s: Seq<char>, start: int, j: int) -> Seq<Token>
    decreases s.len() - j, 1nat,
{
    if 0 <= j < s.len() && ident_char(s[j]) {
        lex_ident(s, start, j + 1)
    } else {
        seq![Token::Ident(s.subrange(start, j), 0 <= j < s.len() && s[j] == '(')] + lex(s, j)
    }
}

/// The condition that starts at token `i`, and the position after it.
/// Each nested call spends one unit of `fuel`.
pub open spec fn parse_cond(t: Seq<Token>, i: int, fuel: nat) -> Option<(Cond, int)>
    decreases fuel,
{
    if fuel == 0 || i < 0 || i >= t.len() {
        None
    } else {
        match t[i] {
            Token::Ident(name, paren) => {
                if name == kw_not() {
                    if i + 1 < t.len() && t[i + 1] is LParen {
                        match parse_cond(t, i + 2, (fuel - 1) as nat) {
                            Some((c, j)) => if 0 <= j < t.len() && t[j] is RParen {
                                Some((Cond::Not(Box::new(c)), j + 1))
                            } else {
                                None
                            },
                            None => None,
                        }
                    } else {
                        None
                    }
                } else if name == kw_and() || name == kw_or() {
                    if i + 1 < t.len() && t[i + 1] is LParen {
                        match parse_list(t, i + 2, (fuel - 1) as nat) {
                            Some((cs, j)) => if 0 <= j < t.len() && t[j] is RParen && cs.len()
                                >= 2 {
                                Some(
                                    (
                                        if name == kw_and() {
                                            Cond::And(cs)
                                        } else {
                                            Cond::Or(cs)
                                        },
                                        j + 1,
                                    ),
                                )
                            } else {
                                None
                            },
                            None => None,
                        }
                    } else {
                        None
                    }
                } else if paren {
                    None
                } else {
                    Some((Cond::Id(name), i + 1))
                }
            },
            _ => None,
        }
    }
}

/// One or more conditions separated by commas, starting at token `i`.
pub open spec fn parse_list(t: Seq<Token>, i: int, fuel: nat) -> Option<(Seq<Cond>, int)>
    decreases fuel,
{
    if fuel == 0 {
        None
    } else {
        match parse_cond(t, i, (fuel - 1) as nat) {
            None => None,
            Some((c, j)) => if 0 <= j < t.len() && t[j] is Comma {
                match parse_list(t, j + 1, (fuel - 1) as nat) {
                    Some((cs, k)) => Some((seq![c] + cs, k)),
                    None => None,
                }
            } else {
                Some((seq![c], j))
            },
        }
    }
}

/// The condition that a text denotes, if it is well formed: one condition
/// that takes up every token.
pub open spec fn parse_text(s: Seq<char>) -> Option<Cond> {
    let t = lex(s, 0);
    match parse_cond(t, 0, t.len()) {
        Some((c, j)) => if j == t.len() {
            Some(c)
        } else {
            None
        },
        None => None,
    }
}

enum Tok {
    Ident(String, bool),
    LParen,
    RParen,
    Comma,
    Invalid,
}

impl Tok {
    spec fn view(&self) -> Token {
        match self {
            Tok::Ident(name, paren) => Token::Ident(name@, *paren),
            Tok::LParen => Token::LParen,
            Tok::RParen => Token::RParen,
            Tok::Comma => Token::Comma,
            Tok::Invalid => Token::Invalid,
        }
    }
}

spec fn tok_views(t: Seq<Tok>) -> Seq<Token> {
    t.map_values(|x: Tok| x@)
}

fn chars_of(s: &str) -> (r: Vec<char>)
    ensures
        r@ == s@,
{
    let n = s.unicode_len();
    let mut r: Vec<char> = Vec::new();
    let mut k: usize = 0;
    while k < n
        invariant
            n == s@.len(),
            k <= n,
            r@ == s@.subrange(0, k as int),
        decreases n - k,
    {
        r.push(s.get_char(k));
        k += 1;
        proof {
            assert(r@ =~= s@.subrange(0, k as int));
        }
    }
    proof {
        assert(r@ =~= s@);
    }
    r
}

fn tokenize(s: &str, chars: &Vec<char>) -> (r: Vec<Tok>)
    requires
        chars@ == s@,
    ensures
        tok_views(r@) == lex(s@, 0),
{
    let n = chars.len();
    let mut toks: Vec<Tok> = Vec::new();
    let mut i: usize = 0;
    while i < n
        invariant
            n == s@.len(),
            chars@ == s@,
            i <= n,
            tok_views(toks@) + lex(s@, i as int) == lex(s@, 0),
        decreases n - i,
    {
        let c = chars[i];
        let ghost before = toks@;
        if c == '(' {
            toks.push(Tok::LParen);
            i += 1;
        } else if c == ')' {
            toks.push(Tok::RParen);
            i += 1;
        } else if c == ',' {
            toks.push(Tok::Comma);
            i += 1;
        } else if c == ' ' {
            i += 1;
        } else if is_ident_start(c) {
            let mut j = i + 1;
            while j < n && is_ident_char(chars[j])
                invariant
                    n == s@.len(),
                    chars@ == s@,
                    i < j <= n,
                    lex_ident(s@, i as int, j as int) == lex(s@, i as int),
                decreases n - j,
            {
                j += 1;
            }
            let paren = j < n && chars[j] == '(';
            let name = s.substring_char(i, j).to_owned();
            toks.push(Tok::Ident(name, paren));
            i = j;
        } else if char_is_whitespace(c) {
            i += 1;
        } else {
            toks.push(Tok::Invalid);
            proof {
                assert(tok_views(toks@) =~= tok_views(before) + seq![Token::Invalid]);
            }
            return toks;
        }
        proof {
            assert(tok_views(toks@) =~= tok_views(before) + (tok_views(toks@).subrange(
                before.len() as int,
                toks@.len() as int,
            )));
            assert(tok_views(toks@) + lex(s@, i as int) =~= lex(s@, 0));
        }
    }
    proof {
        assert(tok_views(toks@) + lex(s@, i as int) =~= tok_views(toks@));
    }
    toks
}

fn is_word(name: &String, w: &str) -> (r: bool)
    ensures
        r == (name@ == w@),
{
    let k = String::from_str(w);
    *name == k
}

fn parse_cond_at(t: &Vec<Tok>, i: usize, fuel: usize) -> (r: Option<(CombinationCondition, usize)>)
    ensures
        match parse_cond(tok_views(t@), i as int, fuel as nat) {
            Some((c, j)) => r matches Some((rc, rj)) && rc@ == c && rj == j,
            None => r is None,
        },
    decreases fuel,
{
    let ghost tv = tok_views(t@);
    if fuel == 0 || i >= t.len() {
        return None;
    }
    proof {
        reveal_strlit("Not");
        reveal_strlit("And");
        reveal_strlit("Or");
        assert("Not"@ =~= kw_not());
        assert("And"@ =~= kw_and());
        assert("Or"@ =~= kw_or());
        assert(tv[i as int] == t@[i as int]@);
    }
    match &t[i] {
        Tok::Ident(name, paren) => {
            if is_word(name, "Not") {
                if i + 1 < t.len() && matches!(t[i + 1], Tok::LParen) {
                    proof {
                        assert(tv[i + 1] == t@[i + 1]@);
                    }
                    match parse_cond_at(t, i + 2, fuel - 1) {
                        Some((c, j)) => {
                            if j < t.len() && matches!(t[j], Tok::RParen) {
                                proof {
                                    assert(tv[j as int] == t@[j as int]@);
                                }
                                Some((CombinationCondition::Not(Box::new(c)), j + 1))
                            } else {
                                proof {
                                    if j < t.len() {
                                        assert(tv[j as int] == t@[j as int]@);
                                    }
                                }
                                None
                            }
                        },
                        None => None,
                    }
                } else {
                    proof {
                        if i + 1 < t.len() {
                            assert(tv[i + 1] == t@[i + 1]@);
                        }
                    }
                    None
                }
            } else if is_word(name, "And") || is_word(name, "Or") {
                let is_and = is_word(name, "And");
                if i + 1 < t.len() && matches!(t[i + 1], Tok::LParen) {
                    proof {
                        assert(tv[i + 1] == t@[i + 1]@);
                    }
                    match parse_list_at(t, i + 2, fuel - 1) {
                        Some((cs, j)) => {
                            proof {
                                lemma_views(cs@, 0);
                            }
                            if j < t.len() && matches!(t[j], Tok::RParen) && cs.len() >= 2 {
                                proof {
                                    assert(tv[j as int] == t@[j as int]@);
                                }
                                if is_and {
                                    Some((CombinationCondition::And(cs), j + 1))
                                } else {
                                    Some((CombinationCondition::Or(cs), j + 1))
                                }
                            } else {
                                proof {
                                    lemma_views(cs@, 0);
                                    if j < t.len() {
                                        assert(tv[j as int] == t@[j as int]@);
                                    }
                                }
                                None
                            }
                        },
                        None => None,
                    }
                } else {
                    proof {
                        if i + 1 < t.len() {
                            assert(tv[i + 1] == t@[i + 1]@);
                        }
                    }
                    None
                }
            } else if *paren {
                None
            } else {
                Some((CombinationCondition::Id(name.clone()), i + 1))
            }
        },
        _ => None,
    }
}

fn parse_list_at(t: &Vec<Tok>, i: usize, fuel: usize) -> (r: Option<(Vec<CombinationCondition>, usize)>)
    ensures
        match parse_list(tok_views(t@), i as int, fuel as nat) {
            Some((cs, j)) => r matches Some((rcs, rj)) && all_views(rcs@) == cs && rj == j,
            None => r is None,
        },
    decreases fuel,
{
    let ghost tv = tok_views(t@);
    if fuel == 0 {
        return None;
    }
    match parse_cond_at(t, i, fuel - 1) {
        None => None,
        Some((c, j)) => {
            if j < t.len() && matches!(t[j], Tok::Comma) {
                proof {
                    assert(tv[j as int] == t@[j as int]@);
                }
                match parse_list_at(t, j + 1, fuel - 1) {
                    Some((rest, k)) => {
                        let mut v: Vec<CombinationCondition> = Vec::new();
                        v.push(c);
                        let ghost (v0, rest0) = (v@, rest@);
                        let mut rest = rest;
                        v.append(&mut rest);
                        proof {
                            lemma_views(v0, 0);
                            lemma_views(rest0, 0);
                            lemma_views(v@, 0);
                            assert(all_views(v@) =~= seq![v0[0]@] + all_views(rest0));
                        }
                        Some((v, k))
                    },
                    None => None,
                }
            } else {
                proof {
                    if j < t.len() {
                        assert(tv[j as int] == t@[j as int]@);
                    }
                }
                let mut v: Vec<CombinationCondition> = Vec::new();
                v.push(c);
                proof {
                    lemma_views(v@, 0);
                    assert(all_views(v@) =~= seq![v@[0]@]);
                }
                Some((v, j))
            }
        },
    }
}

impl CombinationCondition {
    /// Parses the text form of a condition. Blanks between tokens are
    /// ignored; anything after the condition is an error.
    pub fn parse(s: &str) -> (r: Result<CombinationCondition, String>)
        ensures
            match parse_text(s@) {
                Some(c) => r is Ok && r->Ok_0@ == c,
                None => r is Err,
            },
    {
        let chars = chars_of(s);
        let toks = tokenize(s, &chars);
        match parse_cond_at(&toks, 0, toks.len()) {
            Some((c, j)) if j == toks.len() => Ok(c),
            Some(_) => Err(String::from_str("combination_condition: unexpected text after the condition")),
            None => Err(String::from_str("combination_condition: invalid condition")),
        }
    }
}

/// A name that reads back as itself: it starts with a letter, goes on with
/// identifier characters and is not one of the words `And`, `Or`, `Not`.
pub open spec fn valid_ident(n: Seq<char>) -> bool {
    &&& n.len() > 0
    &&& ident_start(n[0])
    &&& forall|k: int| 1 <= k < n.len() ==> ident_char(#[trigger] n[k])
    &&& n != kw_and()
    &&& n != kw_or()
    &&& n != kw_not()
}

/// A well-formed condition: `And` and `Or` have at least two children and
/// every name is a valid identifier.
pub open spec fn valid(c: Cond) -> bool
    decreases c, 0nat,
{
    match c {
        Cond::And(cs) => cs.len() >= 2 && valid_list(cs, 0),
        Cond::Or(cs) => cs.len() >= 2 && valid_list(cs, 0),
        Cond::Not(b) => valid(*b),
        Cond::Id(n) => valid_ident(n),
    }
}

pub open spec fn valid_list(cs: Seq<Cond>, i: nat) -> bool
    decreases cs, cs.len() - i,
{
    if i >= cs.len() {
        true
    } else {
        valid(cs[i as int]) && valid_list(cs, i + 1)
    }
}

/// The tokens of the canonical text of `c`.
pub open spec fn toks(c: Cond) -> Seq<Token>
    decreases c, 0nat,
{
    match c {
        Cond::And(cs) => seq![Token::Ident(kw_and(), true), Token::LParen] + toks_list(cs, 0)
            + seq![Token::RParen],
        Cond::Or(cs) => seq![Token::Ident(kw_or(), true), Token::LParen] + toks_list(cs, 0)
            + seq![Token::RParen],
        Cond::Not(b) => seq![Token::Ident(kw_not(), true), Token::LParen] + toks(*b) + seq![
            Token::RParen,
        ],
        Cond::Id(n) => seq![Token::Ident(n, false)],
    }
}

pub open spec fn toks_list(cs: Seq<Cond>, i: nat) -> Seq<Token>
    decreases cs, cs.len() - i,
{
    if i >= cs.len() {
        Seq::empty()
    } else if i + 1 == cs.len() {
        toks(cs[i as int])
    } else {
        toks(cs[i as int]) + seq![Token::Comma] + toks_list(cs, i + 1)
    }
}

proof fn lemma_lex_ident_scan(s: Seq<char>, start: int, j: int, e: int)
    requires
        0 <= start < j <= e <= s.len(),
        forall|k: int| j <= k < e ==> ident_char(#[trigger] s[k]),
        e == s.len() || !ident_char(s[e]),
    ensures
        lex_ident(s, start, j) == seq![Token::Ident(s.subrange(start, e), e < s.len() && s[e] == '(')]
            + lex(s, e),
    decreases e - j,
{
    if j < e {
        lemma_lex_ident_scan(s, start, j + 1, e);
    }
}

proof fn lemma_toks_len(c: Cond)
    ensures
        toks(c).len() >= 1,
{
}

proof fn lemma_toks_list_len(cs: Seq<Cond>, k: nat)
    requires
        k < cs.len(),
    ensures
        toks_list(cs, k).len() >= toks(cs[k as int]).len(),
        k + 1 < cs.len() ==> toks_list(cs, k).len() == toks(cs[k as int]).len() + 1
            + toks_list(cs, k + 1).len(),
{
}

proof fn lemma_fmt_len(c: Cond)
    requires
        valid(c),
    ensures
        fmt(c).len() >= 1,
{
    match c {
        Cond::And(cs) => {},
        Cond::Or(cs) => {},
        Cond::Not(b) => {},
        Cond::Id(n) => {},
    }
}

proof fn lemma_fmt_list_len(cs: Seq<Cond>, k: nat)
    requires
        k < cs.len(),
        valid_list(cs, k),
    ensures
        fmt_list(cs, k).len() >= 1,
{
    lemma_fmt_len(cs[k as int]);
    if k + 1 < cs.len() {
        assert(fmt_list(cs, k) == fmt(cs[k as int]) + seq![',', ' '] + fmt_list(cs, k + 1));
    }
}

proof fn lemma_valid_list_elem(cs: Seq<Cond>, k: nat, m: nat)
    requires
        k <= m < cs.len(),
        valid_list(cs, k),
    ensures
        valid(cs[m as int]),
        valid_list(cs, m),
    decreases m - k,
{
    if k < m {
        lemma_valid_list_elem(cs, k + 1, m);
    }
}

/// `s` holds `w` at position `i`.
pub open spec fn holds_at(s: Seq<char>, i: int, w: Seq<char>) -> bool {
    0 <= i && i + (w.len() as int) <= s.len() && s.subrange(i, i + (w.len() as int)) == w
}

proof fn lemma_holds_at_index(s: Seq<char>, i: int, w: Seq<char>)
    requires
        holds_at(s, i, w),
    ensures
        forall|k: int| 0 <= k < (w.len() as int) ==> s[i + k] == #[trigger] w[k],
{
    assert forall|k: int| 0 <= k < (w.len() as int) implies s[i + k] == #[trigger] w[k] by {
        assert(s.subrange(i, i + (w.len() as int))[k] == s[i + k]);
    }
}

proof fn lemma_holds_at_part(s: Seq<char>, i: int, w: Seq<char>, a: int, b: int)
    requires
        holds_at(s, i, w),
        0 <= a <= b <= (w.len() as int),
    ensures
        holds_at(s, i + a, w.subrange(a, b)),
{
    lemma_holds_at_index(s, i, w);
    assert(s.subrange(i + a, i + b) =~= w.subrange(a, b));
}

/// The text of a keyword call `w(` followed by an argument text `inner`
/// and `)` lexes to the keyword, `(`, the argument's tokens and `)`.
proof fn lemma_lex_keyword(s: Seq<char>, i: int, w: Seq<char>, inner: Seq<char>)
    requires
        (w.len() as int) >= 2,
        w == kw_and() || w == kw_or() || w == kw_not(),
        holds_at(s, i, w + seq!['('] + inner + seq![')']),
    ensures
        lex(s, i) == seq![Token::Ident(w, true), Token::LParen] + lex(s, i + (w.len() as int) + 1),
{
    let f = w + seq!['('] + inner + seq![')'];
    lemma_holds_at_index(s, i, f);
    let n = (w.len() as int);
    assert(f[0] == w[0]);
    assert forall|k: int| i + 1 <= k < i + n implies ident_char(#[trigger] s[k]) by {
        assert(f[k - i] == w[k - i]);
        assert(s[i + (k - i)] == f[k - i]);
    }
    assert(f[n] == '(');
    lemma_lex_ident_scan(s, i, i + 1, i + n);
    assert(s.subrange(i, i + n) =~= w) by {
        assert forall|k: int| 0 <= k < n implies s.subrange(i, i + n)[k] == w[k] by {
            assert(f[k] == w[k]);
        }
    }
}

/// The canonical text of a valid condition at position `i` of `s`, followed
/// by `,`, `)` or the end of `s`, lexes to the condition's tokens.
proof fn lemma_lex_fmt(c: Cond, s: Seq<char>, i: int)
    requires
        valid(c),
        holds_at(s, i, fmt(c)),
        i + fmt(c).len() == s.len() || s[i + fmt(c).len()] == ',' || s[i + fmt(c).len()] == ')',
    ensures
        lex(s, i) == toks(c) + lex(s, i + fmt(c).len()),
    decreases c, 0nat,
{
    let f = fmt(c);
    let e = i + (f.len() as int);
    lemma_holds_at_index(s, i, f);
    match c {
        Cond::Id(n) => {
            assert(s[i] == n[0]);
            assert forall|k: int| i + 1 <= k < e implies ident_char(#[trigger] s[k]) by {
                assert(s[i + (k - i)] == n[k - i]);
            }
            lemma_lex_ident_scan(s, i, i + 1, e);
            assert(s.subrange(i, e) =~= n);
        },
        Cond::Not(b) => {
            let inner = fmt(*b);
            let w = kw_not();
            let p = i + (w.len() as int) + 1;
            lemma_lex_keyword(s, i, w, inner);
            lemma_holds_at_part(s, i, f, (w.len() as int) + 1, (w.len() as int) + 1 + (inner.len() as int));
            assert(f.subrange((w.len() as int) + 1, (w.len() as int) + 1 + (inner.len() as int)) =~= inner);
            assert(f[(w.len() as int) + 1 + (inner.len() as int)] == ')');
            lemma_lex_fmt(*b, s, p);
            assert(lex(s, p + (inner.len() as int)) == seq![Token::RParen] + lex(s, e));
            assert(lex(s, i) =~= toks(c) + lex(s, e));
        },
        Cond::And(cs) => {
            let inner = fmt_list(cs, 0);
            let w = kw_and();
            let p = i + (w.len() as int) + 1;
            lemma_fmt_list_len(cs, 0);
            lemma_lex_keyword(s, i, w, inner);
            lemma_holds_at_part(s, i, f, (w.len() as int) + 1, (w.len() as int) + 1 + (inner.len() as int));
            assert(f.subrange((w.len() as int) + 1, (w.len() as int) + 1 + (inner.len() as int)) =~= inner);
            assert(f[(w.len() as int) + 1 + (inner.len() as int)] == ')');
            lemma_lex_fmt_list(cs, 0, s, p);
            assert(lex(s, p + (inner.len() as int)) == seq![Token::RParen] + lex(s, e));
            assert(lex(s, i) =~= toks(c) + lex(s, e));
        },
        Cond::Or(cs) => {
            let inner = fmt_list(cs, 0);
            let w = kw_or();
            let p = i + (w.len() as int) + 1;
            lemma_fmt_list_len(cs, 0);
            lemma_lex_keyword(s, i, w, inner);
            lemma_holds_at_part(s, i, f, (w.len() as int) + 1, (w.len() as int) + 1 + (inner.len() as int));
            assert(f.subrange((w.len() as int) + 1, (w.len() as int) + 1 + (inner.len() as int)) =~= inner);
            assert(f[(w.len() as int) + 1 + (inner.len() as int)] == ')');
            lemma_lex_fmt_list(cs, 0, s, p);
            assert(lex(s, p + (inner.len() as int)) == seq![Token::RParen] + lex(s, e));
            assert(lex(s, i) =~= toks(c) + lex(s, e));
        },
    }
}

/// The text of `cs[k..]` at position `i` of `s`, followed by `)`, lexes to
/// the tokens of that list.
proof fn lemma_lex_fmt_list(cs: Seq<Cond>, k: nat, s: Seq<char>, i: int)
    requires
        k < cs.len(),
        valid_list(cs, k),
        holds_at(s, i, fmt_list(cs, k)),
        i + fmt_list(cs, k).len() < s.len(),
        s[i + fmt_list(cs, k).len()] == ')',
    ensures
        lex(s, i) == toks_list(cs, k) + lex(s, i + fmt_list(cs, k).len()),
    decreases cs, cs.len() - k,
{
    let f = fmt_list(cs, k);
    let c = cs[k as int];
    let fc = fmt(c);
    lemma_valid_list_elem(cs, k, k);
    lemma_holds_at_index(s, i, f);
    if k + 1 == cs.len() {
        lemma_lex_fmt(c, s, i);
    } else {
        let rest = fmt_list(cs, k + 1);
        lemma_valid_list_elem(cs, k, k + 1);
        lemma_fmt_list_len(cs, k + 1);
        assert(f == fc + seq![',', ' '] + rest);
        lemma_holds_at_part(s, i, f, 0, (fc.len() as int));
        assert(f.subrange(0, (fc.len() as int)) =~= fc);
        assert(f[(fc.len() as int)] == ',');
        lemma_lex_fmt(c, s, i);
        assert(f[(fc.len() as int) + 1] == ' ');
        let p = i + (fc.len() as int) + 2;
        lemma_holds_at_part(s, i, f, (fc.len() as int) + 2, (f.len() as int));
        assert(f.subrange((fc.len() as int) + 2, (f.len() as int)) =~= rest);
        lemma_lex_fmt_list(cs, k + 1, s, p);
        assert(lex(s, p - 1) == lex(s, p));
        assert(lex(s, i + (fc.len() as int)) == seq![Token::Comma] + lex(s, p));
        assert(lex(s, i) =~= toks_list(cs, k) + lex(s, i + (f.len() as int)));
    }
}

/// `t` holds `w` at position `i`.
pub open spec fn toks_at(t: Seq<Token>, i: int, w: Seq<Token>) -> bool {
    0 <= i && i + (w.len() as int) <= t.len() && t.subrange(i, i + (w.len() as int)) == w
}

proof fn lemma_toks_at_index(t: Seq<Token>, i: int, w: Seq<Token>)
    requires
        toks_at(t, i, w),
    ensures
        forall|k: int| 0 <= k < (w.len() as int) ==> t[i + k] == #[trigger] w[k],
{
    assert forall|k: int| 0 <= k < (w.len() as int) implies t[i + k] == #[trigger] w[k] by {
        assert(t.subrange(i, i + (w.len() as int))[k] == t[i + k]);
    }
}

proof fn lemma_toks_at_part(t: Seq<Token>, i: int, w: Seq<Token>, a: int, b: int)
    requires
        toks_at(t, i, w),
        0 <= a <= b <= (w.len() as int),
    ensures
        toks_at(t, i + a, w.subrange(a, b)),
{
    lemma_toks_at_index(t, i, w);
    assert(t.subrange(i + a, i + b) =~= w.subrange(a, b));
}

/// The tokens of a valid condition, at position `i` of `t`, parse back to
/// it with enough fuel.
proof fn lemma_parse_toks(c: Cond, t: Seq<Token>, i: int, fuel: nat)
    requires
        valid(c),
        toks_at(t, i, toks(c)),
        fuel >= toks(c).len(),
    ensures
        parse_cond(t, i, fuel) == Some((c, i + toks(c).len())),
    decreases c, 0nat,
{
    let tc = toks(c);
    lemma_toks_at_index(t, i, tc);
    assert(kw_and()[0] != kw_not()[0]);
    assert(kw_or().len() != kw_not().len());
    assert(kw_or().len() != kw_and().len());
    match c {
        Cond::Id(n) => {
            assert(t[i] == tc[0]);
        },
        Cond::Not(b) => {
            let inner = toks(*b);
            lemma_toks_len(*b);
            assert(t[i] == tc[0]);
            assert(t[i + 1] == tc[1]);
            lemma_toks_at_part(t, i, tc, 2, 2 + (inner.len() as int));
            assert(tc.subrange(2, 2 + (inner.len() as int)) =~= inner);
            lemma_parse_toks(*b, t, i + 2, (fuel - 1) as nat);
            assert(t[i + 2 + (inner.len() as int)] == tc[2 + (inner.len() as int)]);
            assert(Cond::Not(Box::new(*b)) == c);
        },
        Cond::And(cs) => {
            let inner = toks_list(cs, 0);
            lemma_toks_list_len(cs, 0);
            lemma_toks_len(cs[0]);
            assert(t[i] == tc[0]);
            assert(t[i + 1] == tc[1]);
            lemma_toks_at_part(t, i, tc, 2, 2 + (inner.len() as int));
            assert(tc.subrange(2, 2 + (inner.len() as int)) =~= inner);
            assert(t[i + 2 + (inner.len() as int)] == tc[2 + (inner.len() as int)]);
            lemma_parse_toks_list(cs, 0, t, i + 2, (fuel - 1) as nat);
            assert(cs.subrange(0, cs.len() as int) =~= cs);
        },
        Cond::Or(cs) => {
            let inner = toks_list(cs, 0);
            lemma_toks_list_len(cs, 0);
            lemma_toks_len(cs[0]);
            assert(t[i] == tc[0]);
            assert(t[i + 1] == tc[1]);
            lemma_toks_at_part(t, i, tc, 2, 2 + (inner.len() as int));
            assert(tc.subrange(2, 2 + (inner.len() as int)) =~= inner);
            assert(t[i + 2 + (inner.len() as int)] == tc[2 + (inner.len() as int)]);
            lemma_parse_toks_list(cs, 0, t, i + 2, (fuel - 1) as nat);
            assert(cs.subrange(0, cs.len() as int) =~= cs);
        },
    }
}

proof fn lemma_parse_toks_list(cs: Seq<Cond>, k: nat, t: Seq<Token>, i: int, fuel: nat)
    requires
        k < cs.len(),
        valid_list(cs, k),
        toks_at(t, i, toks_list(cs, k)),
        i + toks_list(cs, k).len() < t.len(),
        !(t[i + toks_list(cs, k).len()] is Comma),
        fuel >= toks_list(cs, k).len() + 1,
    ensures
        parse_list(t, i, fuel) == Some(
            (cs.subrange(k as int, cs.len() as int), i + toks_list(cs, k).len()),
        ),
    decreases cs, cs.len() - k,
{
    let tl = toks_list(cs, k);
    let c = cs[k as int];
    let tc = toks(c);
    lemma_valid_list_elem(cs, k, k);
    lemma_toks_list_len(cs, k);
    lemma_toks_at_index(t, i, tl);
    if k + 1 == cs.len() {
        lemma_parse_toks(c, t, i, (fuel - 1) as nat);
        assert(cs.subrange(k as int, cs.len() as int) =~= seq![c]);
    } else {
        let rest = toks_list(cs, k + 1);
        lemma_valid_list_elem(cs, k, k + 1);
        assert(tl == tc + seq![Token::Comma] + rest);
        lemma_toks_at_part(t, i, tl, 0, (tc.len() as int));
        assert(tl.subrange(0, (tc.len() as int)) =~= tc);
        lemma_parse_toks(c, t, i, (fuel - 1) as nat);
        assert(t[i + (tc.len() as int)] == tl[(tc.len() as int)]);
        let p = i + (tc.len() as int) + 1;
        lemma_toks_at_part(t, i, tl, (tc.len() as int) + 1, (tl.len() as int));
        assert(tl.subrange((tc.len() as int) + 1, (tl.len() as int)) =~= rest);
        lemma_parse_toks_list(cs, k + 1, t, p, (fuel - 1) as nat);
        assert(seq![c] + cs.subrange((k + 1) as int, cs.len() as int) =~= cs.subrange(
            k as int,
            cs.len() as int,
        ));
    }
}

/// Parsing the canonical text of a valid condition gives the condition back.
pub proof fn lemma_parse_format_round_trip(c: Cond)
    requires
        valid(c),
    ensures
        parse_text(fmt(c)) == Some(c),
{
    let s = fmt(c);
    assert(s.subrange(0, s.len() as int) =~= s);
    lemma_lex_fmt(c, s, 0);
    assert(lex(s, s.len() as int) == Seq::<Token>::empty());
    assert(lex(s, 0) =~= toks(c));
    let t = lex(s, 0);
    assert(t.subrange(0, toks(c).len() as int) =~= toks(c));
    lemma_parse_toks(c, t, 0, t.len());
}

/// Every `And` and `Or` node of `c` has at least two children.
pub open spec fn arity_ok(c: Cond) -> bool
    decreases c,
{
    match c {
        Cond::And(cs) => cs.len() >= 2 && arity_ok_list(cs),
        Cond::Or(cs) => cs.len() >= 2 && arity_ok_list(cs),
        Cond::Not(b) => arity_ok(*b),
        Cond::Id(_) => true,
    }
}

pub open spec fn arity_ok_list(cs: Seq<Cond>) -> bool
    decreases cs,
{
    if cs.len() == 0 {
        true
    } else {
        arity_ok(cs[0]) && arity_ok_list(cs.drop_first())
    }
}

proof fn lemma_parse_cond_arity(t: Seq<Token>, i: int, fuel: nat)
    ensures
        parse_cond(t, i, fuel) matches Some((c, _)) ==> arity_ok(c),
    decreases fuel,
{
    if fuel > 0 {
        lemma_parse_cond_arity(t, i + 2, (fuel - 1) as nat);
        lemma_parse_list_arity(t, i + 2, (fuel - 1) as nat);
        if let Some((c, _)) = parse_cond(t, i + 2, (fuel - 1) as nat) {
            assert(*Box::new(c) == c);
        }
    }
}

proof fn lemma_parse_list_arity(t: Seq<Token>, i: int, fuel: nat)
    ensures
        parse_list(t, i, fuel) matches Some((cs, _)) ==> arity_ok_list(cs),
    decreases fuel,
{
    if fuel > 0 {
        lemma_parse_cond_arity(t, i, (fuel - 1) as nat);
        if let Some((c, j)) = parse_cond(t, i, (fuel - 1) as nat) {
            lemma_parse_list_arity(t, j + 1, (fuel - 1) as nat);
            assert((seq![c]).drop_first() =~= Seq::<Cond>::empty());
            assert(arity_ok_list(Seq::<Cond>::empty()));
            assert((seq![c])[0] == c);
            if let Some((cs, k)) = parse_list(t, j + 1, (fuel - 1) as nat) {
                assert((seq![c] + cs).drop_first() =~= cs);
                assert((seq![c] + cs)[0] == c);
            }
        }
    }
}

/// Whatever the parser accepts has at least two children under every
/// `And` and `Or`: `And(a)` or `Or(b)` are never produced.
pub proof fn lemma_parse_arity(s: Seq<char>)
    ensures
        parse_text(s) matches Some(c) ==> arity_ok(c),
{
    let t = lex(s, 0);
    lemma_parse_cond_arity(t, 0, t.len());
}

} // verus!
