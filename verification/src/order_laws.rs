//! Laws of the natural order of names: it is reflexive and antisymmetric, and,
//! for names whose characters keep their kind under lowercasing, it orders
//! distinct names strictly and transitively.

use vstd::prelude::*;
use crate::text::is_digit;
use crate::sorter::{lowering_keeps_digits, Token, tokens, lowercase_first, lex, leading_zeros, num_order, lower_seq, txt_order, first_or_zero, tok_order, toks_order, natural_order, flat, lemma_tokens_well_formed};

verus! {


pub(crate) proof fn lemma_lex_refl(a: Seq<char>)
    ensures
        lex(a, a) == 0,
    decreases a.len(),
{
    if a.len() > 0 {
        lemma_lex_refl(a.drop_first());
    }
}

pub(crate) proof fn lemma_lex_antisym(a: Seq<char>, b: Seq<char>)
    ensures
        lex(a, b) == -lex(b, a),
    decreases a.len(),
{
    if a.len() > 0 && b.len() > 0 && a[0] == b[0] {
        lemma_lex_antisym(a.drop_first(), b.drop_first());
    }
}

pub(crate) proof fn lemma_lex_zero(a: Seq<char>, b: Seq<char>)
    requires
        lex(a, b) == 0,
    ensures
        a == b,
    decreases a.len(),
{
    if a.len() > 0 && b.len() > 0 {
        lemma_lex_zero(a.drop_first(), b.drop_first());
        assert(a =~= seq![a[0]] + a.drop_first());
        assert(b =~= seq![b[0]] + b.drop_first());
    } else {
        assert(a =~= b);
    }
}

pub(crate) proof fn lemma_lex_trans(a: Seq<char>, b: Seq<char>, c: Seq<char>)
    requires
        lex(a, b) <= 0,
        lex(b, c) <= 0,
    ensures
        lex(a, c) <= 0,
    decreases a.len(),
{
    if a.len() > 0 && b.len() > 0 && c.len() > 0 && a[0] == b[0] && b[0] == c[0] {
        lemma_lex_trans(a.drop_first(), b.drop_first(), c.drop_first());
    }
}

pub(crate) proof fn lemma_lex_range(a: Seq<char>, b: Seq<char>)
    ensures
        -1 <= lex(a, b) <= 1,
    decreases a.len(),
{
    if a.len() > 0 && b.len() > 0 && a[0] == b[0] {
        lemma_lex_range(a.drop_first(), b.drop_first());
    }
}

proof fn lemma_lex_first(a: Seq<char>, b: Seq<char>)
    requires
        a.len() > 0,
        b.len() > 0,
    ensures
        lex(a, b) <= 0 ==> a[0] <= b[0],
        a[0] < b[0] ==> lex(a, b) == -1,
{
}

proof fn lemma_leading_zeros_prefix(a: Seq<char>)
    ensures
        leading_zeros(a) <= a.len(),
        forall|i: int| 0 <= i < leading_zeros(a) ==> a[i] == '0',
    decreases a.len(),
{
    if a.len() > 0 && a[0] == '0' {
        lemma_leading_zeros_prefix(a.drop_first());
        assert forall|i: int| 0 <= i < leading_zeros(a) implies a[i] == '0' by {
            if i > 0 {
                assert(a[i] == a.drop_first()[i - 1]);
            }
        }
    }
}

proof fn lemma_num_zero(a: Seq<char>, b: Seq<char>)
    requires
        num_order(a, b) == 0,
    ensures
        a == b,
{
    let za = leading_zeros(a) as int;
    let zb = leading_zeros(b) as int;
    lemma_leading_zeros_prefix(a);
    lemma_leading_zeros_prefix(b);
    lemma_lex_zero(a.skip(za), b.skip(zb));
    assert(za == zb);
    assert(a =~= a.take(za) + a.skip(za));
    assert(b =~= b.take(zb) + b.skip(zb));
    assert(a.take(za) =~= b.take(zb));
}

proof fn lemma_num_antisym(a: Seq<char>, b: Seq<char>)
    ensures
        num_order(a, b) == -num_order(b, a),
{
    lemma_lex_antisym(a.skip(leading_zeros(a) as int), b.skip(leading_zeros(b) as int));
}

proof fn lemma_num_trans(a: Seq<char>, b: Seq<char>, c: Seq<char>)
    requires
        num_order(a, b) <= 0,
        num_order(b, c) <= 0,
    ensures
        num_order(a, c) <= 0,
{
    let sa = a.skip(leading_zeros(a) as int);
    let sb = b.skip(leading_zeros(b) as int);
    let sc = c.skip(leading_zeros(c) as int);
    lemma_lex_range(sa, sb);
    lemma_lex_range(sb, sc);
    lemma_lex_range(sa, sc);
    if sa.len() == sb.len() && sb.len() == sc.len() {
        if lex(sa, sb) == 0 {
            lemma_lex_zero(sa, sb);
        } else if lex(sb, sc) == 0 {
            lemma_lex_zero(sb, sc);
        } else {
            lemma_lex_trans(sa, sb, sc);
            if lex(sa, sc) == 0 {
                lemma_lex_zero(sa, sc);
                lemma_lex_antisym(sa, sb);
            }
        }
    }
}

proof fn lemma_txt_antisym(a: Seq<char>, b: Seq<char>)
    ensures
        txt_order(a, b) == -txt_order(b, a),
{
    lemma_lex_antisym(lower_seq(a), lower_seq(b));
    lemma_lex_antisym(a, b);
}

proof fn lemma_txt_zero(a: Seq<char>, b: Seq<char>)
    requires
        txt_order(a, b) == 0,
    ensures
        a == b,
{
    lemma_lex_zero(a, b);
}

proof fn lemma_txt_trans(a: Seq<char>, b: Seq<char>, c: Seq<char>)
    requires
        txt_order(a, b) <= 0,
        txt_order(b, c) <= 0,
    ensures
        txt_order(a, c) <= 0,
{
    let la = lower_seq(a);
    let lb = lower_seq(b);
    let lc = lower_seq(c);
    lemma_lex_range(la, lb);
    lemma_lex_range(lb, lc);
    lemma_lex_range(la, lc);
    lemma_lex_range(a, b);
    lemma_lex_range(b, c);
    if lex(la, lb) == 0 && lex(lb, lc) == 0 {
        lemma_lex_zero(la, lb);
        lemma_lex_zero(lb, lc);
        lemma_lex_trans(a, b, c);
    } else {
        lemma_lex_trans(la, lb, lc);
        if lex(la, lc) == 0 {
            lemma_lex_zero(la, lc);
            lemma_lex_antisym(la, lb);
            if lex(la, lb) == 0 {
                lemma_lex_zero(la, lb);
                lemma_lex_refl(la);
            }
        }
    }
}

/// A run whose first character keeps its kind under lowercasing.
pub open spec fn token_keys_apart(t: Token) -> bool {
    t.digit || !is_digit(lowercase_first(t.text[0]))
}

pub open spec fn run_ok(t: Token) -> bool {
    &&& t.text.len() > 0
    &&& is_digit(t.text[0]) == t.digit
    &&& token_keys_apart(t)
}

/// The key a run shows to a run of the other kind.
pub open spec fn key(t: Token) -> char {
    if t.digit { first_or_zero(t.text) } else { lowercase_first(t.text[0]) }
}

proof fn lemma_tok_antisym(x: Token, y: Token)
    ensures
        tok_order(x, y) == -tok_order(y, x),
{
    lemma_num_antisym(x.text, y.text);
    lemma_txt_antisym(x.text, y.text);
}

pub(crate) proof fn lemma_tok_antisym_pub(x: Token, y: Token)
    ensures
        tok_order(x, y) == -tok_order(y, x),
{
    lemma_tok_antisym(x, y);
}

proof fn lemma_tok_refl(x: Token)
    ensures
        tok_order(x, x) == 0,
{
    lemma_tok_antisym(x, x);
}

proof fn lemma_tok_zero(x: Token, y: Token)
    requires
        run_ok(x),
        run_ok(y),
        tok_order(x, y) == 0,
    ensures
        x == y,
{
    if x.digit && y.digit {
        lemma_num_zero(x.text, y.text);
    } else if !x.digit && !y.digit {
        lemma_txt_zero(x.text, y.text);
    }
}

proof fn lemma_txt_key(a: Seq<char>, b: Seq<char>)
    requires
        a.len() > 0,
        b.len() > 0,
        txt_order(a, b) <= 0,
    ensures
        lowercase_first(a[0]) <= lowercase_first(b[0]),
{
    let la = lower_seq(a);
    let lb = lower_seq(b);
    lemma_lex_range(la, lb);
    if lex(la, lb) == 0 {
        lemma_lex_zero(la, lb);
        assert(la[0] == lb[0]);
    } else {
        lemma_lex_first(la, lb);
    }
}

proof fn lemma_txt_key_strict(a: Seq<char>, b: Seq<char>)
    requires
        a.len() > 0,
        b.len() > 0,
        lowercase_first(a[0]) < lowercase_first(b[0]),
    ensures
        txt_order(a, b) == -1,
{
    let la = lower_seq(a);
    let lb = lower_seq(b);
    lemma_lex_first(la, lb);
}

proof fn lemma_tok_trans(x: Token, y: Token, z: Token)
    requires
        run_ok(x),
        run_ok(y),
        run_ok(z),
        tok_order(x, y) <= 0,
        tok_order(y, z) <= 0,
    ensures
        tok_order(x, z) <= 0,
{
    if x.digit && y.digit && z.digit {
        lemma_num_trans(x.text, y.text, z.text);
    } else if !x.digit && !y.digit && !z.digit {
        lemma_txt_trans(x.text, y.text, z.text);
    } else if !x.digit && !y.digit {
        lemma_txt_key(x.text, y.text);
    } else if !y.digit && !z.digit {
        lemma_txt_key(y.text, z.text);
        if !x.digit {
        } else {
        }
    } else if !x.digit && !z.digit {
        lemma_txt_key_strict(x.text, z.text);
    } else {
    }
}

/// Every run of `s` keeps its kind under lowercasing of its first character.
proof fn lemma_runs_ok(s: Seq<char>)
    requires
        lowering_keeps_digits(s),
    ensures
        forall|k: int| 0 <= k < tokens(s).len() ==> run_ok(#[trigger] tokens(s)[k]),
{
    lemma_tokens_well_formed(s);
    let t = tokens(s);
    assert forall|k: int| 0 <= k < t.len() implies run_ok(#[trigger] t[k]) by {
        assert(t[k].text.len() > 0);
        assert(is_digit(t[k].text[0]) == t[k].digit);
        if !t[k].digit {
            lemma_char_of_run(t, k);
            let i = choose|i: int| 0 <= i < s.len() && s[i] == t[k].text[0];
            assert(!is_digit(s[i]));
            assert(!is_digit(lowercase_first(s[i])));
        }
    }
}

proof fn lemma_flat_contains(t: Seq<Token>, k: int, m: int)
    requires
        0 <= k < t.len(),
        0 <= m < t[k].text.len(),
    ensures
        exists|i: int| 0 <= i < flat(t).len() && flat(t)[i] == t[k].text[m],
    decreases t.len(),
{
    let f = flat(t);
    assert(f == flat(t.drop_last()) + t.last().text);
    if k == t.len() - 1 {
        let i = flat(t.drop_last()).len() + m;
        assert(f[i] == t[k].text[m]);
    } else {
        lemma_flat_contains(t.drop_last(), k, m);
        let i = choose|i: int| 0 <= i < flat(t.drop_last()).len() && flat(t.drop_last())[i] == t.drop_last()[k].text[m];
        assert(f[i] == t[k].text[m]);
    }
}

proof fn lemma_char_of_run(t: Seq<Token>, k: int)
    requires
        0 <= k < t.len(),
        t[k].text.len() > 0,
    ensures
        exists|i: int| 0 <= i < flat(t).len() && flat(t)[i] == t[k].text[0],
{
    lemma_flat_contains(t, k, 0);
}

proof fn lemma_toks_antisym(a: Seq<Token>, b: Seq<Token>)
    ensures
        toks_order(a, b) == -toks_order(b, a),
    decreases a.len(),
{
    if a.len() > 0 && b.len() > 0 {
        lemma_tok_antisym(a[0], b[0]);
        lemma_toks_antisym(a.drop_first(), b.drop_first());
    }
}

proof fn lemma_toks_refl(a: Seq<Token>)
    ensures
        toks_order(a, a) == 0,
    decreases a.len(),
{
    if a.len() > 0 {
        lemma_tok_refl(a[0]);
        lemma_toks_refl(a.drop_first());
    }
}

proof fn lemma_toks_zero(a: Seq<Token>, b: Seq<Token>)
    requires
        forall|k: int| 0 <= k < a.len() ==> run_ok(#[trigger] a[k]),
        forall|k: int| 0 <= k < b.len() ==> run_ok(#[trigger] b[k]),
        toks_order(a, b) == 0,
    ensures
        a == b,
    decreases a.len(),
{
    if a.len() > 0 && b.len() > 0 {
        assert(run_ok(a[0]));
        assert(run_ok(b[0]));
        lemma_tok_zero(a[0], b[0]);
        assert forall|k: int| 0 <= k < a.drop_first().len() implies run_ok(#[trigger] a.drop_first()[k]) by {
            assert(a.drop_first()[k] == a[k + 1]);
        }
        assert forall|k: int| 0 <= k < b.drop_first().len() implies run_ok(#[trigger] b.drop_first()[k]) by {
            assert(b.drop_first()[k] == b[k + 1]);
        }
        lemma_toks_zero(a.drop_first(), b.drop_first());
        assert(a =~= seq![a[0]] + a.drop_first());
        assert(b =~= seq![b[0]] + b.drop_first());
    } else {
        assert(a =~= b);
    }
}

proof fn lemma_toks_trans(a: Seq<Token>, b: Seq<Token>, c: Seq<Token>)
    requires
        forall|k: int| 0 <= k < a.len() ==> run_ok(#[trigger] a[k]),
        forall|k: int| 0 <= k < b.len() ==> run_ok(#[trigger] b[k]),
        forall|k: int| 0 <= k < c.len() ==> run_ok(#[trigger] c[k]),
        toks_order(a, b) <= 0,
        toks_order(b, c) <= 0,
    ensures
        toks_order(a, c) <= 0,
    decreases a.len(),
{
    if a.len() > 0 && b.len() > 0 && c.len() > 0 {
        let (x, y, z) = (a[0], b[0], c[0]);
        assert(run_ok(x) && run_ok(y) && run_ok(z));
        lemma_tok_antisym(x, y);
        lemma_tok_antisym(y, z);
        lemma_tok_antisym(x, z);
        if tok_order(x, y) == 0 && tok_order(y, z) == 0 {
            lemma_tok_zero(x, y);
            lemma_tok_zero(y, z);
            assert forall|k: int| 0 <= k < a.drop_first().len() implies run_ok(#[trigger] a.drop_first()[k]) by {
                assert(a.drop_first()[k] == a[k + 1]);
            }
            assert forall|k: int| 0 <= k < b.drop_first().len() implies run_ok(#[trigger] b.drop_first()[k]) by {
                assert(b.drop_first()[k] == b[k + 1]);
            }
            assert forall|k: int| 0 <= k < c.drop_first().len() implies run_ok(#[trigger] c.drop_first()[k]) by {
                assert(c.drop_first()[k] == c[k + 1]);
            }
            lemma_toks_trans(a.drop_first(), b.drop_first(), c.drop_first());
            lemma_tok_refl(x);
        } else if tok_order(x, y) == 0 {
            lemma_tok_zero(x, y);
        } else if tok_order(y, z) == 0 {
            lemma_tok_zero(y, z);
        } else {
            lemma_tok_trans(x, y, z);
            if tok_order(x, z) == 0 {
                lemma_tok_zero(x, z);
            }
        }
    } else if a.len() > 0 && b.len() > 0 && c.len() == 0 {
        lemma_toks_antisym(b, c);
    }
}

proof fn lemma_lex_first_difference(a: Seq<char>, b: Seq<char>, i: int)
    requires
        0 <= i <= a.len(),
        i <= b.len(),
        forall|j: int| 0 <= j < i ==> a[j] == b[j],
        (i < a.len() && i < b.len() && a[i] < b[i]) || (i == a.len() && i < b.len()),
    ensures
        lex(a, b) == -1,
    decreases i,
{
    if i > 0 {
        assert forall|j: int| 0 <= j < i - 1 implies a.drop_first()[j] == b.drop_first()[j] by {
            assert(a[j + 1] == b[j + 1]);
        }
        assert(a[0] == b[0]);
        lemma_lex_first_difference(a.drop_first(), b.drop_first(), i - 1);
    }
}

/// Text runs compare case-insensitively first, over every character: at the
/// first position where the lowercased characters differ, the run with the
/// smaller lowercased character comes first (and a run whose lowercased form
/// is a prefix of the other's comes first), whatever the case of the
/// characters themselves.
pub proof fn law_text_runs_fold_case_first(x: Token, y: Token, i: int)
    requires
        !x.digit,
        !y.digit,
        0 <= i <= x.text.len(),
        i <= y.text.len(),
        forall|j: int| 0 <= j < i ==> lowercase_first(x.text[j]) == lowercase_first(y.text[j]),
        (i < x.text.len() && i < y.text.len() && lowercase_first(x.text[i]) < lowercase_first(y.text[i]))
            || (i == x.text.len() && i < y.text.len()),
    ensures
        tok_order(x, y) == -1,
{
    let a = lower_seq(x.text);
    let b = lower_seq(y.text);
    assert forall|j: int| 0 <= j < i implies a[j] == b[j] by {
        assert(a[j] == lowercase_first(x.text[j]));
        assert(b[j] == lowercase_first(y.text[j]));
    }
    if i < x.text.len() {
        assert(a[i] == lowercase_first(x.text[i]));
        assert(b[i] == lowercase_first(y.text[i]));
    }
    lemma_lex_first_difference(a, b, i);
}

/// Case only breaks ties: two text runs whose every character lowercases
/// alike compare by their code points.
pub proof fn law_text_runs_case_breaks_ties(x: Token, y: Token)
    requires
        !x.digit,
        !y.digit,
        x.text.len() == y.text.len(),
        forall|j: int| 0 <= j < x.text.len() ==> lowercase_first(x.text[j]) == lowercase_first(y.text[j]),
    ensures
        tok_order(x, y) == lex(x.text, y.text),
{
    let a = lower_seq(x.text);
    let b = lower_seq(y.text);
    assert forall|j: int| 0 <= j < a.len() implies a[j] == b[j] by {
        assert(a[j] == lowercase_first(x.text[j]));
        assert(b[j] == lowercase_first(y.text[j]));
    }
    assert(a =~= b);
    lemma_lex_refl(a);
}

/// Every name is at the same place as itself.
pub proof fn law_natural_order_reflexive(a: Seq<char>)
    ensures
        natural_order(a, a) == 0,
{
    lemma_toks_refl(tokens(a));
}

/// Swapping the two names reverses their order.
pub proof fn law_natural_order_antisymmetric(a: Seq<char>, b: Seq<char>)
    ensures
        natural_order(a, b) == -natural_order(b, a),
        -1 <= natural_order(a, b) <= 1,
{
    lemma_toks_antisym(tokens(a), tokens(b));
    lemma_toks_order_range(tokens(a), tokens(b));
}

proof fn lemma_toks_order_range(a: Seq<Token>, b: Seq<Token>)
    ensures
        -1 <= toks_order(a, b) <= 1,
    decreases a.len(),
{
    if a.len() > 0 && b.len() > 0 {
        lemma_tok_order_range(a[0], b[0]);
        lemma_toks_order_range(a.drop_first(), b.drop_first());
    }
}

proof fn lemma_tok_order_range(x: Token, y: Token)
    ensures
        -1 <= tok_order(x, y) <= 1,
{
    lemma_lex_range(lower_seq(x.text), lower_seq(y.text));
    lemma_lex_range(x.text, y.text);
    lemma_lex_range(x.text.skip(leading_zeros(x.text) as int), y.text.skip(leading_zeros(y.text) as int));
}

/// Two names at the same place in the order are the same name.
pub proof fn law_natural_order_equal_only_if_same(a: Seq<char>, b: Seq<char>)
    requires
        lowering_keeps_digits(a),
        lowering_keeps_digits(b),
        natural_order(a, b) == 0,
    ensures
        a == b,
{
    lemma_runs_ok(a);
    lemma_runs_ok(b);
    lemma_toks_zero(tokens(a), tokens(b));
    lemma_tokens_well_formed(a);
    lemma_tokens_well_formed(b);
}

/// The natural order is transitive.
pub proof fn law_natural_order_transitive(a: Seq<char>, b: Seq<char>, c: Seq<char>)
    requires
        lowering_keeps_digits(a),
        lowering_keeps_digits(b),
        lowering_keeps_digits(c),
        natural_order(a, b) <= 0,
        natural_order(b, c) <= 0,
    ensures
        natural_order(a, c) <= 0,
{
    lemma_runs_ok(a);
    lemma_runs_ok(b);
    lemma_runs_ok(c);
    lemma_toks_trans(tokens(a), tokens(b), tokens(c));
}

/// A name strictly before a second one, itself at or before a third, is
/// strictly before the third.
pub proof fn law_natural_order_strict_then_weak(a: Seq<char>, b: Seq<char>, c: Seq<char>)
    requires
        lowering_keeps_digits(a),
        lowering_keeps_digits(b),
        lowering_keeps_digits(c),
        natural_order(a, b) < 0,
        natural_order(b, c) <= 0,
    ensures
        natural_order(a, c) < 0,
{
    law_natural_order_transitive(a, b, c);
    if natural_order(a, c) == 0 {
        law_natural_order_equal_only_if_same(a, c);
        law_natural_order_antisymmetric(b, c);
    }
}

/// In a sequence sorted by `sort_names`, every name comes no later in
/// natural order than every name after it (not only its neighbour).
pub proof fn law_sorted_names_pairwise<T: crate::sorter::NaturalName>(s: Seq<T>, i: int, j: int)
    requires
        crate::sorter::names_in_order(s),
        forall|k: int| 0 <= k < s.len() ==> lowering_keeps_digits(#[trigger] s[k].natural_name()),
        0 <= i < j < s.len(),
    ensures
        natural_order(s[i].natural_name(), s[j].natural_name()) <= 0,
    decreases j - i,
{
    if j == i + 1 {
        assert(natural_order(s[i].natural_name(), s[i + 1].natural_name()) <= 0);
    } else {
        law_sorted_names_pairwise(s, i, j - 1);
        assert(natural_order(s[j - 1].natural_name(), s[j - 1 + 1].natural_name()) <= 0);
        law_natural_order_transitive(s[i].natural_name(), s[j - 1].natural_name(), s[j].natural_name());
    }
}

} // verus!
