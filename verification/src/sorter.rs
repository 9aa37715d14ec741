//! Natural ordering of file names.
//!
//! A name splits into maximal runs of ASCII digits and of other characters.
//! Digit runs compare by numeric value, then by fewer leading zeros first;
//! other runs compare case-insensitively, then by code point; a digit run
//! against another run compares by first characters.

use vstd::prelude::*;
use crate::text::{chars_of, is_digit, is_ascii_digit};
use std::cmp::Ordering;

verus! {

/// One run of a name: ASCII digits (`digit`) or other characters.
pub struct Token {
    pub digit: bool,
    pub text: Seq<char>,
}

/// What `char::to_lowercase` yields first for `c`.
pub uninterp spec fn lowercase_first(c: char) -> char;

/// `std`'s `char::to_lowercase`, first character of the mapping.
/// The result is `lowercase_first(c)`; for ASCII characters it agrees with the
/// ASCII mapping ('A'..='Z' to 'a'..='z', all others unchanged), as the
/// documentation of `to_lowercase` and `to_ascii_lowercase` shows. Of other
/// characters it is stated only that the result is no ASCII digit: in the
/// Unicode case mappings that `to_lowercase` follows, no character lowercases
/// to one but the digits themselves.
#[verifier::external_body]
pub(crate) fn lower_char(c: char) -> (r: char)
    ensures
        r == lowercase_first(c),
        ('A' <= c && c <= 'Z') ==> r == ascii_lower(c),
        (c < 'A' || ('Z' < c && c <= '\x7f')) ==> r == c,
        !is_digit(c) ==> !is_digit(r),
{
    c.to_lowercase().next().unwrap_or(c)
}

/// Lowercasing never turns a character of `s` that is not an ASCII digit into one.
pub open spec fn lowering_keeps_digits(s: Seq<char>) -> bool {
    forall|i: int| 0 <= i < s.len() && !is_digit(s[i]) ==> !is_digit(#[trigger] lowercase_first(s[i]))
}

/// Lowercases each character of `s` once, which shows that lowering keeps
/// the digits of `s` apart from its other characters: the premise of the
/// order laws for `s`.
pub fn check_lowering(s: &str)
    ensures
        lowering_keeps_digits(s@),
{
    let cs = chars_of(s);
    let mut i: usize = 0;
    while i < cs.len()
        invariant
            cs@ == s@,
            i <= cs@.len(),
            forall|k: int| 0 <= k < i && !is_digit(s@[k]) ==> !is_digit(#[trigger] lowercase_first(s@[k])),
        decreases cs@.len() - i,
    {
        let _ = lower_char(cs[i]);
        i += 1;
    }
}

pub open spec fn ascii_lower(c: char) -> char {
    if 'A' <= c && c <= 'Z' {
        char_from_code(char_code(c) + 32)
    } else {
        c
    }
}

pub open spec fn char_code(c: char) -> int {
    c as int
}

pub open spec fn char_from_code(n: int) -> char {
    n as char
}

/// The runs of `s`, left to right.
pub open spec fn tokens(s: Seq<char>) -> Seq<Token>
    decreases s.len(),
{
    if s.len() == 0 {
        Seq::empty()
    } else {
        let pre = tokens(s.drop_last());
        let c = s.last();
        if pre.len() > 0 && pre.last().digit == is_digit(c) {
            pre.update(pre.len() - 1, Token { digit: pre.last().digit, text: pre.last().text.push(c) })
        } else {
            pre.push(Token { digit: is_digit(c), text: seq![c] })
        }
    }
}

/// Sign of `a - b`.
pub open spec fn sign(a: int, b: int) -> int {
    if a < b { -1 } else if a > b { 1 } else { 0 }
}

/// Lexicographic order of code points: -1, 0 or 1.
pub open spec fn lex(a: Seq<char>, b: Seq<char>) -> int
    decreases a.len(),
{
    if a.len() == 0 && b.len() == 0 {
        0
    } else if a.len() == 0 {
        -1
    } else if b.len() == 0 {
        1
    } else if a[0] != b[0] {
        if a[0] < b[0] { -1 } else { 1 }
    } else {
        lex(a.drop_first(), b.drop_first())
    }
}

/// Number of leading '0' characters.
pub open spec fn leading_zeros(a: Seq<char>) -> nat
    decreases a.len(),
{
    if a.len() > 0 && a[0] == '0' {
        1 + leading_zeros(a.drop_first())
    } else {
        0
    }
}

/// Order of two digit runs: numeric value, then fewer leading zeros first.
pub open spec fn num_order(a: Seq<char>, b: Seq<char>) -> int {
    let sa = a.skip(leading_zeros(a) as int);
    let sb = b.skip(leading_zeros(b) as int);
    if sa.len() != sb.len() {
        sign(sa.len() as int, sb.len() as int)
    } else if lex(sa, sb) != 0 {
        lex(sa, sb)
    } else {
        sign(a.len() as int, b.len() as int)
    }
}

pub open spec fn lower_seq(a: Seq<char>) -> Seq<char> {
    a.map_values(|c: char| lowercase_first(c))
}

/// Order of two non-digit runs: case-insensitive, then by code point.
pub open spec fn txt_order(a: Seq<char>, b: Seq<char>) -> int {
    if lex(lower_seq(a), lower_seq(b)) != 0 {
        lex(lower_seq(a), lower_seq(b))
    } else {
        lex(a, b)
    }
}

pub open spec fn char_order(a: char, b: char) -> int {
    if a < b { -1 } else if a > b { 1 } else { 0 }
}

pub open spec fn first_or_zero(a: Seq<char>) -> char {
    if a.len() > 0 { a[0] } else { '0' }
}

/// Order of two runs.
pub open spec fn tok_order(x: Token, y: Token) -> int {
    if x.digit && y.digit {
        num_order(x.text, y.text)
    } else if !x.digit && !y.digit {
        txt_order(x.text, y.text)
    } else if x.digit {
        char_order(first_or_zero(x.text), lowercase_first(y.text[0]))
    } else {
        char_order(lowercase_first(x.text[0]), first_or_zero(y.text))
    }
}

/// Order of two run sequences: first differing run, else the shorter first.
pub open spec fn toks_order(a: Seq<Token>, b: Seq<Token>) -> int
    decreases a.len(),
{
    if a.len() == 0 || b.len() == 0 {
        sign(a.len() as int, b.len() as int)
    } else if tok_order(a[0], b[0]) != 0 {
        tok_order(a[0], b[0])
    } else {
        toks_order(a.drop_first(), b.drop_first())
    }
}

/// The natural order of two names: -1 (before), 0 (same place), 1 (after).
pub open spec fn natural_order(a: Seq<char>, b: Seq<char>) -> int {
    toks_order(tokens(a), tokens(b))
}

pub open spec fn ordering_of(v: int) -> Ordering {
    if v < 0 {
        Ordering::Less
    } else if v > 0 {
        Ordering::Greater
    } else {
        Ordering::Equal
    }
}


/// One run of a name, as computed.
pub struct Tok {
    pub digit: bool,
    pub text: Vec<char>,
}

impl View for Tok {
    type V = Token;

    open spec fn view(&self) -> Token {
        Token { digit: self.digit, text: self.text@ }
    }
}

pub open spec fn view_toks(v: Seq<Tok>) -> Seq<Token> {
    v.map_values(|t: Tok| t@)
}

/// Splits `s` into its runs.
pub fn tokenize(s: &Vec<char>) -> (r: Vec<Tok>)
    ensures
        view_toks(r@) == tokens(s@),
{
    let mut toks: Vec<Tok> = Vec::new();
    let mut i: usize = 0;
    while i < s.len()
        invariant
            i <= s.len(),
            view_toks(toks@) == tokens(s@.take(i as int)),
        decreases s.len() - i,
    {
        let c = s[i];
        let d = is_ascii_digit(c);
        let ghost pre = s@.take(i as int);
        assert(s@.take(i + 1).drop_last() =~= pre);
        assert(s@.take(i + 1).last() == c);
        let n = toks.len();
        if n > 0 && toks[n - 1].digit == d {
            let mut t = toks.pop().unwrap();
            t.text.push(c);
            let ghost before = toks@;
            toks.push(t);
            assert(view_toks(toks@) =~= tokens(s@.take(i + 1)));
        } else {
            let mut text: Vec<char> = Vec::new();
            text.push(c);
            toks.push(Tok { digit: d, text });
            assert(view_toks(toks@) =~= tokens(s@.take(i + 1)));
        }
        i += 1;
    }
    assert(s@.take(s.len() as int) =~= s@);
    toks
}

proof fn lemma_lex_step(a: Seq<char>, b: Seq<char>, i: int, j: int)
    requires
        0 <= i < a.len(),
        0 <= j < b.len(),
        a[i] == b[j],
    ensures
        lex(a.skip(i), b.skip(j)) == lex(a.skip(i + 1), b.skip(j + 1)),
{
    assert(a.skip(i).drop_first() =~= a.skip(i + 1));
    assert(b.skip(j).drop_first() =~= b.skip(j + 1));
}

/// Lexicographic comparison of `a[ia..]` and `b[ib..]` by code point.
fn lex_from(a: &Vec<char>, ia: usize, b: &Vec<char>, ib: usize) -> (r: i8)
    requires
        ia <= a.len(),
        ib <= b.len(),
    ensures
        r == lex(a@.skip(ia as int), b@.skip(ib as int)),
{
    let mut i = ia;
    let mut j = ib;
    while i < a.len() && j < b.len()
        invariant
            ia <= i <= a.len(),
            ib <= j <= b.len(),
            i - ia == j - ib,
            lex(a@.skip(ia as int), b@.skip(ib as int)) == lex(a@.skip(i as int), b@.skip(j as int)),
        decreases a.len() - i,
    {
        if a[i] != b[j] {
            if a[i] < b[j] {
                return -1;
            } else {
                return 1;
            }
        }
        proof {
            lemma_lex_step(a@, b@, i as int, j as int);
        }
        i += 1;
        j += 1;
    }
    if i == a.len() && j == b.len() {
        0
    } else if i == a.len() {
        -1
    } else {
        1
    }
}

/// Lexicographic order of two character vectors: -1, 0 or 1.
pub fn lex_order(a: &Vec<char>, b: &Vec<char>) -> (r: i8)
    ensures
        r == lex(a@, b@),
{
    assert(a@.skip(0) =~= a@);
    assert(b@.skip(0) =~= b@);
    lex_from(a, 0, b, 0)
}

proof fn lemma_leading_zeros_step(a: Seq<char>, k: int)
    requires
        0 <= k < a.len(),
        a[k] == '0',
    ensures
        leading_zeros(a.skip(k)) == 1 + leading_zeros(a.skip(k + 1)),
{
    assert(a.skip(k).drop_first() =~= a.skip(k + 1));
}

fn count_leading_zeros(a: &Vec<char>) -> (r: usize)
    ensures
        r == leading_zeros(a@),
        r <= a.len(),
{
    let mut k: usize = 0;
    assert(a@.skip(0) =~= a@);
    while k < a.len() && a[k] == '0'
        invariant
            k <= a.len(),
            leading_zeros(a@) == k + leading_zeros(a@.skip(k as int)),
        decreases a.len() - k,
    {
        proof {
            lemma_leading_zeros_step(a@, k as int);
        }
        k += 1;
    }
    k
}

fn sign_usize(a: usize, b: usize) -> (r: i8)
    ensures
        r == sign(a as int, b as int),
{
    if a < b { -1 } else if a > b { 1 } else { 0 }
}

/// Order of two digit runs.
fn compare_numeric(a: &Vec<char>, b: &Vec<char>) -> (r: i8)
    ensures
        r == num_order(a@, b@),
{
    let za = count_leading_zeros(a);
    let zb = count_leading_zeros(b);
    let la = a.len() - za;
    let lb = b.len() - zb;
    if la != lb {
        return sign_usize(la, lb);
    }
    let l = lex_from(a, za, b, zb);
    if l != 0 {
        l
    } else {
        sign_usize(a.len(), b.len())
    }
}

fn lower_all(a: &Vec<char>) -> (r: Vec<char>)
    ensures
        r@ == lower_seq(a@),
{
    let mut v: Vec<char> = Vec::new();
    let mut i: usize = 0;
    while i < a.len()
        invariant
            i <= a.len(),
            v@ == lower_seq(a@.take(i as int)),
        decreases a.len() - i,
    {
        v.push(lower_char(a[i]));
        assert(lower_seq(a@.take(i + 1)) =~= lower_seq(a@.take(i as int)).push(lowercase_first(a@[i as int])));
        i += 1;
    }
    assert(a@.take(a.len() as int) =~= a@);
    v
}

/// Order of two non-digit runs.
fn compare_text(a: &Vec<char>, b: &Vec<char>) -> (r: i8)
    ensures
        r == txt_order(a@, b@),
{
    let la = lower_all(a);
    let lb = lower_all(b);
    assert(la@.skip(0) =~= la@);
    assert(lb@.skip(0) =~= lb@);
    assert(a@.skip(0) =~= a@);
    assert(b@.skip(0) =~= b@);
    let l = lex_from(&la, 0, &lb, 0);
    if l != 0 {
        l
    } else {
        lex_from(a, 0, b, 0)
    }
}

fn compare_chars(a: char, b: char) -> (r: i8)
    ensures
        r == char_order(a, b),
{
    if a < b { -1 } else if a > b { 1 } else { 0 }
}

/// Order of two runs.
fn compare_tokens(x: &Tok, y: &Tok) -> (r: i8)
    requires
        x.text.len() > 0,
        y.text.len() > 0,
    ensures
        r == tok_order(x@, y@),
{
    if x.digit && y.digit {
        compare_numeric(&x.text, &y.text)
    } else if !x.digit && !y.digit {
        compare_text(&x.text, &y.text)
    } else if x.digit {
        compare_chars(x.text[0], lower_char(y.text[0]))
    } else {
        compare_chars(lower_char(x.text[0]), y.text[0])
    }
}


/// The characters of a run sequence, concatenated.
pub open spec fn flat(t: Seq<Token>) -> Seq<char>
    decreases t.len(),
{
    if t.len() == 0 {
        Seq::empty()
    } else {
        flat(t.drop_last()) + t.last().text
    }
}

/// Each run is nonempty and made only of characters of its kind.
pub open spec fn runs_well_formed(t: Seq<Token>) -> bool {
    forall|k: int|
        0 <= k < t.len() ==> {
            &&& (#[trigger] t[k]).text.len() > 0
            &&& forall|m: int| 0 <= m < t[k].text.len() ==> is_digit(t[k].text[m]) == t[k].digit
        }
}

/// The runs of a name are nonempty, uniform in kind, and spell the name.
pub proof fn lemma_tokens_well_formed(s: Seq<char>)
    ensures
        runs_well_formed(tokens(s)),
        flat(tokens(s)) == s,
    decreases s.len(),
{
    if s.len() > 0 {
        let pre = tokens(s.drop_last());
        lemma_tokens_well_formed(s.drop_last());
        let c = s.last();
        let t = tokens(s);
        if pre.len() > 0 && pre.last().digit == is_digit(c) {
            let n = pre.len() - 1;
            assert(t.drop_last() =~= pre.drop_last());
            assert(pre.drop_last().push(pre.last()) =~= pre);
            assert(flat(pre) == flat(pre.drop_last()) + pre.last().text);
            assert(flat(t) == flat(t.drop_last()) + t.last().text);
            assert(t.last().text == pre.last().text.push(c));
            assert(flat(pre.drop_last()) + pre.last().text.push(c) =~= (flat(pre.drop_last()) + pre.last().text).push(c));
            assert(s.drop_last().push(c) =~= s);
            assert(flat(t) =~= s);
            assert forall|k: int| 0 <= k < t.len() implies {
                &&& (#[trigger] t[k]).text.len() > 0
                &&& forall|m: int| 0 <= m < t[k].text.len() ==> is_digit(t[k].text[m]) == t[k].digit
            } by {
                if k < n {
                    assert(t[k] == pre[k]);
                } else {
                    assert(pre[n] == pre.last());
                }
            }
        } else {
            assert(t.drop_last() =~= pre);
            assert(flat(t) == flat(t.drop_last()) + t.last().text);
            assert(s.drop_last() + seq![c] =~= s);
            assert(flat(t) =~= s);
            assert forall|k: int| 0 <= k < t.len() implies {
                &&& (#[trigger] t[k]).text.len() > 0
                &&& forall|m: int| 0 <= m < t[k].text.len() ==> is_digit(t[k].text[m]) == t[k].digit
            } by {
                if k < pre.len() {
                    assert(t[k] == pre[k]);
                }
            }
        }
    } else {
        assert(flat(tokens(s)) =~= s);
    }
}

proof fn lemma_toks_order_step(a: Seq<Token>, b: Seq<Token>, i: int)
    requires
        0 <= i < a.len(),
        0 <= i < b.len(),
        tok_order(a[i], b[i]) == 0,
    ensures
        toks_order(a.skip(i), b.skip(i)) == toks_order(a.skip(i + 1), b.skip(i + 1)),
{
    assert(a.skip(i).drop_first() =~= a.skip(i + 1));
    assert(b.skip(i).drop_first() =~= b.skip(i + 1));
}

fn compare_token_seqs(ta: &Vec<Tok>, tb: &Vec<Tok>) -> (r: i8)
    requires
        runs_well_formed(view_toks(ta@)),
        runs_well_formed(view_toks(tb@)),
    ensures
        r == toks_order(view_toks(ta@), view_toks(tb@)),
{
    let ghost va = view_toks(ta@);
    let ghost vb = view_toks(tb@);
    let mut i: usize = 0;
    assert(va.skip(0) =~= va);
    assert(vb.skip(0) =~= vb);
    while i < ta.len() && i < tb.len()
        invariant
            i <= ta.len(),
            i <= tb.len(),
            va == view_toks(ta@),
            vb == view_toks(tb@),
            runs_well_formed(va),
            runs_well_formed(vb),
            toks_order(va, vb) == toks_order(va.skip(i as int), vb.skip(i as int)),
        decreases ta.len() - i,
    {
        assert(va[i as int] == ta@[i as int]@);
        assert(vb[i as int] == tb@[i as int]@);
        assert(va[i as int].text.len() > 0);
        assert(vb[i as int].text.len() > 0);
        let c = compare_tokens(&ta[i], &tb[i]);
        if c != 0 {
            assert(va.skip(i as int)[0] == va[i as int]);
            assert(vb.skip(i as int)[0] == vb[i as int]);
            return c;
        }
        proof {
            lemma_toks_order_step(va, vb, i as int);
        }
        i += 1;
    }
    sign_usize(ta.len() - i, tb.len() - i)
}

/// Natural order of two names as -1, 0 or 1.
fn compare_names(a: &str, b: &str) -> (r: i8)
    ensures
        r == natural_order(a@, b@),
{
    let ca = chars_of(a);
    let cb = chars_of(b);
    let ta = tokenize(&ca);
    let tb = tokenize(&cb);
    proof {
        lemma_tokens_well_formed(a@);
        lemma_tokens_well_formed(b@);
    }
    compare_token_seqs(&ta, &tb)
}

/// Compares two complete file names (extension included) in natural order.
pub fn natural_cmp(a: &str, b: &str) -> (r: Ordering)
    ensures
        r == ordering_of(natural_order(a@, b@)),
{
    let c = compare_names(a, b);
    if c < 0 {
        Ordering::Less
    } else if c > 0 {
        Ordering::Greater
    } else {
        Ordering::Equal
    }
}


/// Something that carries a file name to be ordered naturally.
pub trait NaturalName {
    spec fn natural_name(&self) -> Seq<char>;

    fn name_str(&self) -> (r: &str)
        ensures
            r@ == self.natural_name(),
    ;
}

impl<'a> NaturalName for &'a str {
    open spec fn natural_name(&self) -> Seq<char> {
        (**self)@
    }

    fn name_str(&self) -> (r: &str) {
        *self
    }
}

impl NaturalName for String {
    open spec fn natural_name(&self) -> Seq<char> {
        self@
    }

    fn name_str(&self) -> (r: &str) {
        self.as_str()
    }
}

/// Each name is at or before the next one in natural order.
pub open spec fn names_in_order<T: NaturalName>(s: Seq<T>) -> bool {
    forall|k: int|
        0 <= k < s.len() - 1 ==> natural_order((#[trigger] s[k]).natural_name(), s[k + 1].natural_name())
            <= 0
}

proof fn lemma_natural_order_antisym(a: Seq<char>, b: Seq<char>)
    ensures
        natural_order(a, b) == -natural_order(b, a),
{
    lemma_toks_antisym_local(tokens(a), tokens(b));
}

proof fn lemma_toks_antisym_local(a: Seq<Token>, b: Seq<Token>)
    ensures
        toks_order(a, b) == -toks_order(b, a),
    decreases a.len(),
{
    if a.len() > 0 && b.len() > 0 {
        crate::order_laws::lemma_tok_antisym_pub(a[0], b[0]);
        lemma_toks_antisym_local(a.drop_first(), b.drop_first());
    }
}

/// The items of `v` in reverse order.
fn reversed<T>(v: Vec<T>) -> (r: Vec<T>)
    ensures
        r@ == v@.reverse(),
{
    let ghost orig = v@;
    let mut v = v;
    let mut r: Vec<T> = Vec::new();
    while v.len() > 0
        invariant
            v@ == orig.take(v@.len() as int),
            v@.len() <= orig.len(),
            r@ == orig.subrange(v@.len() as int, orig.len() as int).reverse(),
        decreases v@.len(),
    {
        let ghost k = v@.len() - 1;
        let x = v.pop().unwrap();
        assert(x == orig[k]);
        r.push(x);
        assert(v@ =~= orig.take(k));
        assert(r@ =~= orig.subrange(k, orig.len() as int).reverse());
    }
    assert(orig.subrange(0, orig.len() as int) =~= orig);
    r
}

/// Lowering keeps the digits of every name of `s` apart (see
/// `lowering_keeps_digits`).
pub open spec fn all_lowering<T: NaturalName>(s: Seq<T>) -> bool {
    forall|k: int| 0 <= k < s.len() ==> lowering_keeps_digits(#[trigger] s[k].natural_name())
}

/// `p` tells where each item of `r` was in `s`: it is one-to-one, and items
/// whose names are at the same place in natural order keep their order.
pub open spec fn stable_witness<T: NaturalName>(r: Seq<T>, s: Seq<T>, p: Seq<int>) -> bool {
    &&& p.len() == r.len()
    &&& r.len() == s.len()
    &&& forall|i: int| 0 <= i < r.len() ==> 0 <= #[trigger] p[i] < s.len() && r[i] == s[p[i]]
    &&& forall|i: int, j: int| 0 <= i < j < r.len() ==> #[trigger] p[i] != #[trigger] p[j]
    &&& forall|i: int, j: int|
        0 <= i < j < r.len() && natural_order(r[i].natural_name(), r[j].natural_name()) == 0
            ==> #[trigger] p[i] < #[trigger] p[j]
}

/// `r` holds the items of `s`, and items of `s` whose names are at the same
/// place in natural order come in `r` in the order they had in `s`.
pub open spec fn stably_from<T: NaturalName>(r: Seq<T>, s: Seq<T>) -> bool {
    exists|p: Seq<int>| stable_witness(r, s, p)
}

/// Merges two sequences in natural order into one, taking from `a` first
/// among equal names.
#[verifier::rlimit(80)]
#[verifier::spinoff_prover]
fn merge_sorted<T: NaturalName>(a: Vec<T>, b: Vec<T>) -> (r: (Vec<T>, Ghost<Seq<int>>))
    requires
        names_in_order(a@),
        names_in_order(b@),
        all_lowering(a@),
        all_lowering(b@),
    ensures
        r.0@.to_multiset() == a@.to_multiset().add(b@.to_multiset()),
        r.0@.len() == a@.len() + b@.len(),
        names_in_order(r.0@),
        stable_witness(r.0@, a@ + b@, r.1@),
{
    broadcast use vstd::seq_lib::group_to_multiset_ensures;
    let ghost sa = a@;
    let ghost sb = b@;
    let ghost la = sa.len() as int;
    let ghost ab = sa + sb;
    let ghost mut q: Seq<int> = Seq::empty();
    let mut ra = reversed(a);
    let mut rb = reversed(b);
    let mut out: Vec<T> = Vec::new();
    loop
        invariant
            names_in_order(sa),
            names_in_order(sb),
            all_lowering(sa),
            all_lowering(sb),
            la == sa.len(),
            ab == sa + sb,
            ra@.len() <= sa.len(),
            rb@.len() <= sb.len(),
            ra@ == sa.subrange(sa.len() - ra@.len(), sa.len() as int).reverse(),
            rb@ == sb.subrange(sb.len() - rb@.len(), sb.len() as int).reverse(),
            out@.to_multiset() == sa.take(sa.len() - ra@.len()).to_multiset().add(sb.take(sb.len() - rb@.len()).to_multiset()),
            out@.len() == (sa.len() - ra@.len()) + (sb.len() - rb@.len()),
            names_in_order(out@),
            out@.len() > 0 && ra@.len() > 0 ==> natural_order(out@.last().natural_name(), sa[sa.len() - ra@.len()].natural_name()) <= 0,
            out@.len() > 0 && rb@.len() > 0 ==> natural_order(out@.last().natural_name(), sb[sb.len() - rb@.len()].natural_name()) <= 0,
            q.len() == out@.len(),
            forall|i: int| 0 <= i < out@.len() ==> ((0 <= #[trigger] q[i] < la - ra@.len())
                || (la <= q[i] < la + sb.len() - rb@.len())) && out@[i] == ab[q[i]],
            forall|i: int, j: int| 0 <= i < j < out@.len() ==>
                (#[trigger] q[i] < la && #[trigger] q[j] < la ==> q[i] < q[j])
                && (q[i] >= la && q[j] >= la ==> q[i] < q[j]),
            forall|i: int, j: int| 0 <= i < j < out@.len()
                && natural_order(out@[i].natural_name(), out@[j].natural_name()) == 0
                ==> #[trigger] q[i] < #[trigger] q[j],
            ra@.len() > 0 ==> forall|i: int| 0 <= i < out@.len() && #[trigger] q[i] >= la
                ==> natural_order(out@[i].natural_name(), sa[la - ra@.len()].natural_name()) < 0,
        ensures
            ra@.len() == 0,
            rb@.len() == 0,
            out@.to_multiset() == sa.to_multiset().add(sb.to_multiset()),
            out@.len() == sa.len() + sb.len(),
            names_in_order(out@),
            stable_witness(out@, ab, q),
        decreases ra@.len() + rb@.len(),
    {
        let ghost ia: int = sa.len() - ra@.len();
        let ghost ib: int = sb.len() - rb@.len();
        if ra.len() == 0 && rb.len() == 0 {
            assert(sa.take(sa.len() as int) =~= sa);
            assert(sb.take(sb.len() as int) =~= sb);
            assert forall|i: int, j: int| 0 <= i < j < out@.len() implies #[trigger] q[i] != #[trigger] q[j] by {
                if q[i] < la && q[j] < la {
                } else if q[i] >= la && q[j] >= la {
                }
            }
            break;
        }
        let take_a = if ra.len() == 0 {
            false
        } else if rb.len() == 0 {
            true
        } else {
            let na = ra[ra.len() - 1].name_str();
            let nb = rb[rb.len() - 1].name_str();
            compare_names(na, nb) <= 0
        };
        let ghost before = out@;
        let ghost qb = q;
        if take_a {
            assert(ra@[ra@.len() - 1] == sa[ia]);
            let x = ra.pop().unwrap();
            proof {
                if rb@.len() > 0 {
                    assert(rb@[rb@.len() - 1] == sb[ib]);
                }
            }
            out.push(x);
            proof {
                q = qb.push(ia);
                assert(sa.take(ia + 1) =~= sa.take(ia).push(x));
                assert(out@ =~= before.push(x));
                vstd::seq_lib::to_multiset_build(before, x);
                vstd::seq_lib::to_multiset_build(sa.take(ia), x);
                assert(out@.to_multiset() == before.to_multiset().insert(x));
                assert(sa.take(ia + 1).to_multiset() == sa.take(ia).to_multiset().insert(x));
                assert(sa.take(ia).to_multiset().insert(x).add(sb.take(ib).to_multiset())
                    =~= sa.take(ia).to_multiset().add(sb.take(ib).to_multiset()).insert(x));
                assert(ra@ =~= sa.subrange(sa.len() - ra@.len(), sa.len() as int).reverse());
                assert(out@.last() == x);
                if ra@.len() > 0 {
                    assert(natural_order(sa[ia].natural_name(), sa[ia + 1].natural_name()) <= 0);
                }
                if rb@.len() > 0 {
                    assert(natural_order(x.natural_name(), sb[ib].natural_name()) <= 0);
                }
                assert forall|k: int| 0 <= k < out@.len() - 1 implies natural_order(
                    (#[trigger] out@[k]).natural_name(),
                    out@[k + 1].natural_name(),
                ) <= 0 by {
                    if k < out@.len() - 2 {
                        assert(out@[k] == before[k] && out@[k + 1] == before[k + 1]);
                    } else {
                        assert(out@[k] == before.last());
                    }
                }
                let n = before.len() as int;
                assert(ab[ia] == sa[ia]);
                assert forall|i: int| 0 <= i < out@.len() implies ((0 <= #[trigger] q[i] < la - ra@.len())
                    || (la <= q[i] < la + sb.len() - rb@.len())) && out@[i] == ab[q[i]] by {
                    if i < n {
                        assert(q[i] == qb[i] && out@[i] == before[i]);
                    }
                }
                assert forall|i: int, j: int| 0 <= i < j < out@.len() implies
                    (#[trigger] q[i] < la && #[trigger] q[j] < la ==> q[i] < q[j])
                    && (q[i] >= la && q[j] >= la ==> q[i] < q[j]) by {
                    assert(q[i] == qb[i]);
                    if j < n {
                        assert(q[j] == qb[j]);
                    }
                }
                assert forall|i: int, j: int| 0 <= i < j < out@.len()
                    && natural_order(out@[i].natural_name(), out@[j].natural_name()) == 0
                    implies #[trigger] q[i] < #[trigger] q[j] by {
                    assert(q[i] == qb[i] && out@[i] == before[i]);
                    if j < n {
                        assert(q[j] == qb[j] && out@[j] == before[j]);
                    } else {
                        assert(out@[j] == sa[ia]);
                        if qb[i] >= la {
                            assert(natural_order(before[i].natural_name(), sa[ia].natural_name()) < 0);
                        }
                    }
                }
                if ra@.len() > 0 {
                    assert forall|i: int| 0 <= i < out@.len() && #[trigger] q[i] >= la
                        implies natural_order(out@[i].natural_name(), sa[la - ra@.len()].natural_name()) < 0 by {
                        assert(i < n);
                        assert(q[i] == qb[i] && out@[i] == before[i]);
                        let y = before[i].natural_name();
                        assert(before[i] == ab[qb[i]]);
                        assert(ab[qb[i]] == sb[qb[i] - la]);
                        assert(lowering_keeps_digits(sb[qb[i] - la].natural_name()));
                        assert(lowering_keeps_digits(sa[ia].natural_name()));
                        assert(lowering_keeps_digits(sa[ia + 1].natural_name()));
                        crate::order_laws::law_natural_order_strict_then_weak(
                            y, sa[ia].natural_name(), sa[ia + 1].natural_name());
                    }
                }
            }
        } else {
            assert(rb@[rb@.len() - 1] == sb[ib]);
            let y = rb.pop().unwrap();
            proof {
                if ra@.len() > 0 {
                    assert(ra@[ra@.len() - 1] == sa[ia]);
                }
            }
            out.push(y);
            proof {
                q = qb.push(la + ib);
                assert(sb.take(ib + 1) =~= sb.take(ib).push(y));
                assert(out@ =~= before.push(y));
                vstd::seq_lib::to_multiset_build(before, y);
                vstd::seq_lib::to_multiset_build(sb.take(ib), y);
                assert(out@.to_multiset() == before.to_multiset().insert(y));
                assert(sb.take(ib + 1).to_multiset() == sb.take(ib).to_multiset().insert(y));
                assert(sa.take(ia).to_multiset().add(sb.take(ib).to_multiset().insert(y))
                    =~= sa.take(ia).to_multiset().add(sb.take(ib).to_multiset()).insert(y));
                assert(rb@ =~= sb.subrange(sb.len() - rb@.len(), sb.len() as int).reverse());
                assert(out@.last() == y);
                if rb@.len() > 0 {
                    assert(natural_order(sb[ib].natural_name(), sb[ib + 1].natural_name()) <= 0);
                }
                if ra@.len() > 0 {
                    lemma_natural_order_antisym(sa[ia].natural_name(), y.natural_name());
                    assert(natural_order(y.natural_name(), sa[ia].natural_name()) <= 0);
                }
                assert forall|k: int| 0 <= k < out@.len() - 1 implies natural_order(
                    (#[trigger] out@[k]).natural_name(),
                    out@[k + 1].natural_name(),
                ) <= 0 by {
                    if k < out@.len() - 2 {
                        assert(out@[k] == before[k] && out@[k + 1] == before[k + 1]);
                    } else {
                        assert(out@[k] == before.last());
                    }
                }
                let n = before.len() as int;
                assert(ab[la + ib] == sb[ib]);
                assert forall|i: int| 0 <= i < out@.len() implies ((0 <= #[trigger] q[i] < la - ra@.len())
                    || (la <= q[i] < la + sb.len() - rb@.len())) && out@[i] == ab[q[i]] by {
                    if i < n {
                        assert(q[i] == qb[i] && out@[i] == before[i]);
                    }
                }
                assert forall|i: int, j: int| 0 <= i < j < out@.len() implies
                    (#[trigger] q[i] < la && #[trigger] q[j] < la ==> q[i] < q[j])
                    && (q[i] >= la && q[j] >= la ==> q[i] < q[j]) by {
                    assert(q[i] == qb[i]);
                    if j < n {
                        assert(q[j] == qb[j]);
                    }
                }
                assert forall|i: int, j: int| 0 <= i < j < out@.len()
                    && natural_order(out@[i].natural_name(), out@[j].natural_name()) == 0
                    implies #[trigger] q[i] < #[trigger] q[j] by {
                    assert(q[i] == qb[i] && out@[i] == before[i]);
                    if j < n {
                        assert(q[j] == qb[j] && out@[j] == before[j]);
                    }
                }
                if ra@.len() > 0 {
                    assert(natural_order(sa[ia].natural_name(), y.natural_name()) > 0);
                    assert forall|i: int| 0 <= i < out@.len() && #[trigger] q[i] >= la
                        implies natural_order(out@[i].natural_name(), sa[la - ra@.len()].natural_name()) < 0 by {
                        if i < n {
                            assert(q[i] == qb[i] && out@[i] == before[i]);
                        } else {
                            assert(out@[i] == y);
                        }
                    }
                }
            }
        }
    }
    (out, Ghost(q))
}

/// Composes the places found by sorting two halves and merging them.
proof fn lemma_compose_witness<T: NaturalName>(
    out: Seq<T>, sa: Seq<T>, sb: Seq<T>, a: Seq<T>, b: Seq<T>,
    q: Seq<int>, pa: Seq<int>, pb: Seq<int>,
) -> (p: Seq<int>)
    requires
        stable_witness(out, sa + sb, q),
        stable_witness(sa, a, pa),
        stable_witness(sb, b, pb),
    ensures
        stable_witness(out, a + b, p),
{
    let la = sa.len() as int;
    let ab = sa + sb;
    let p = Seq::new(q.len(), |i: int| if q[i] < la { pa[q[i]] } else { la + pb[q[i] - la] });
    assert forall|i: int| 0 <= i < out.len() implies 0 <= #[trigger] p[i] < (a + b).len() && out[i] == (a + b)[p[i]] by {
        assert(0 <= q[i] < ab.len() && out[i] == ab[q[i]]);
        if q[i] < la {
            assert(ab[q[i]] == sa[q[i]]);
            assert(0 <= pa[q[i]] < a.len() && sa[q[i]] == a[pa[q[i]]]);
        } else {
            assert(ab[q[i]] == sb[q[i] - la]);
            assert(0 <= pb[q[i] - la] < b.len() && sb[q[i] - la] == b[pb[q[i] - la]]);
        }
    }
    assert forall|i: int, j: int| 0 <= i < j < out.len() implies #[trigger] p[i] != #[trigger] p[j] by {
        assert(q[i] != q[j]);
        assert(0 <= q[i] < ab.len() && 0 <= q[j] < ab.len());
        if q[i] < la && q[j] < la {
            if q[i] < q[j] {
                assert(pa[q[i]] != pa[q[j]]);
            } else {
                assert(pa[q[j]] != pa[q[i]]);
            }
        } else if q[i] >= la && q[j] >= la {
            if q[i] < q[j] {
                assert(pb[q[i] - la] != pb[q[j] - la]);
            } else {
                assert(pb[q[j] - la] != pb[q[i] - la]);
            }
        } else if q[i] < la {
            assert(0 <= pa[q[i]] < a.len());
            assert(0 <= pb[q[j] - la]);
        } else {
            assert(0 <= pa[q[j]] < a.len());
            assert(0 <= pb[q[i] - la]);
        }
    }
    assert forall|i: int, j: int|
        0 <= i < j < out.len() && natural_order(out[i].natural_name(), out[j].natural_name()) == 0
            implies #[trigger] p[i] < #[trigger] p[j] by {
        assert(q[i] < q[j]);
        assert(0 <= q[i] < ab.len() && out[i] == ab[q[i]]);
        assert(0 <= q[j] < ab.len() && out[j] == ab[q[j]]);
        if q[j] < la {
            assert(ab[q[i]] == sa[q[i]] && ab[q[j]] == sa[q[j]]);
            assert(pa[q[i]] < pa[q[j]]);
        } else if q[i] >= la {
            assert(ab[q[i]] == sb[q[i] - la] && ab[q[j]] == sb[q[j] - la]);
            assert(pb[q[i] - la] < pb[q[j] - la]);
        } else {
            assert(0 <= pa[q[i]] < a.len());
            assert(0 <= pb[q[j] - la]);
        }
    }
    p
}

/// The items of `v` in natural order of names.
fn merge_sort<T: NaturalName>(v: Vec<T>) -> (r: (Vec<T>, Ghost<Seq<int>>))
    requires
        all_lowering(v@),
    ensures
        r.0@.to_multiset() == v@.to_multiset(),
        r.0@.len() == v@.len(),
        names_in_order(r.0@),
        stable_witness(r.0@, v@, r.1@),
    decreases v@.len(),
{
    if v.len() <= 1 {
        let ghost id = Seq::new(v@.len(), |i: int| i);
        return (v, Ghost(id));
    }
    let ghost orig = v@;
    let mut a = v;
    let mid = a.len() / 2;
    let b = a.split_off(mid);
    assert(orig =~= a@ + b@);
    assert(all_lowering(a@)) by {
        assert forall|k: int| 0 <= k < a@.len() implies lowering_keeps_digits(#[trigger] a@[k].natural_name()) by {
            assert(a@[k] == orig[k]);
        }
    }
    assert(all_lowering(b@)) by {
        assert forall|k: int| 0 <= k < b@.len() implies lowering_keeps_digits(#[trigger] b@[k].natural_name()) by {
            assert(b@[k] == orig[k + a@.len()]);
        }
    }
    let (sa, Ghost(pa)) = merge_sort(a);
    let (sb, Ghost(pb)) = merge_sort(b);
    assert(all_lowering(sa@)) by {
        assert forall|k: int| 0 <= k < sa@.len() implies lowering_keeps_digits(#[trigger] sa@[k].natural_name()) by {
            assert(0 <= pa[k] < a@.len() && sa@[k] == a@[pa[k]]);
        }
    }
    assert(all_lowering(sb@)) by {
        assert forall|k: int| 0 <= k < sb@.len() implies lowering_keeps_digits(#[trigger] sb@[k].natural_name()) by {
            assert(0 <= pb[k] < b@.len() && sb@[k] == b@[pb[k]]);
        }
    }
    let ghost ssa = sa@;
    let ghost ssb = sb@;
    let (r, Ghost(q)) = merge_sorted(sa, sb);
    let ghost p = lemma_compose_witness(r@, ssa, ssb, a@, b@, q, pa, pb);
    proof {
        vstd::seq_lib::lemma_multiset_commutative(a@, b@);
    }
    (r, Ghost(p))
}

/// Sorts `items` by their names in natural order; among equal names the
/// earlier item stays first.
pub fn sort_names<T: NaturalName>(items: &mut Vec<T>)
    ensures
        final(items)@.to_multiset() == old(items)@.to_multiset(),
        final(items)@.len() == old(items)@.len(),
        names_in_order(final(items)@),
        stably_from(final(items)@, old(items)@),
        all_lowering(final(items)@),
{
    let mut k: usize = 0;
    while k < items.len()
        invariant
            k <= items@.len(),
            items@ == old(items)@,
            forall|j: int| 0 <= j < k ==> lowering_keeps_digits(#[trigger] items@[j].natural_name()),
        decreases items@.len() - k,
    {
        check_lowering(items[k].name_str());
        k += 1;
    }
    let mut v: Vec<T> = Vec::new();
    std::mem::swap(&mut v, items);
    let ghost orig = v@;
    let (sorted, Ghost(p)) = merge_sort(v);
    assert(stable_witness(sorted@, orig, p));
    assert(all_lowering(sorted@)) by {
        assert forall|j: int| 0 <= j < sorted@.len() implies lowering_keeps_digits(#[trigger] sorted@[j].natural_name()) by {
            assert(0 <= p[j] < orig.len() && sorted@[j] == orig[p[j]]);
        }
    }
    *items = sorted;
}

} // verus!
