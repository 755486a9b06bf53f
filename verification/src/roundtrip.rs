//! Round-tripping: parsing the display form of a tree of literals yields a
//! tree of the same shape.
//!
//! The heart is a family of lemmas showing that each literal's display text,
//! standing anywhere in the input before a space, a closing parenthesis or
//! the end, lexes back to exactly the token it came from.

use vstd::prelude::*;

use crate::ast::{render_node, render_nodes, SpecNode};
use crate::laws::{adv_n, all_digits, digits_num, horner, lemma_adv_n, lemma_horner_append};
use crate::number::{dec_digits, digit_char, render_number, sign_chars, zero_chars, Number};
use crate::reader::{
    adv_plain, adv_ws, digit_val_s, is_delim_s, is_digit_s, is_ws_s, next_expr_s, next_token_s,
    parse_list_s, scan_atom_s, scan_digits_s, scan_string_s, skip_trivia_s, LexState, Loc, SpecTok,
};

verus! {

/// The decimal digits of a number are digit characters, at least one.
pub proof fn lemma_dec_digits_shape(m: nat)
    ensures
        dec_digits(m).len() >= 1,
        all_digits(dec_digits(m)),
    decreases m,
{
    if m >= 10 {
        lemma_dec_digits_shape(m / 10);
        let ds = dec_digits(m / 10);
        assert forall|j: int| 0 <= j < dec_digits(m).len() implies is_digit_s(
            #[trigger] dec_digits(m)[j],
        ) by {
            if j < ds.len() {
                assert(dec_digits(m)[j] == ds[j]);
            }
        }
    }
}

/// Reading the decimal digits of a number back yields the number.
pub proof fn lemma_digits_num_dec(m: nat)
    ensures
        digits_num(dec_digits(m)) == m,
    decreases m,
{
    reveal_with_fuel(horner, 3);
    if m < 10 {
        assert(horner(0, dec_digits(m)) == digit_val_s(digit_char(m)));
        assert(digit_val_s(digit_char(m)) == m);
    } else {
        lemma_digits_num_dec(m / 10);
        let ds = dec_digits(m / 10);
        let d = digit_char(m % 10);
        assert(dec_digits(m) =~= ds + seq![d]);
        lemma_horner_append(0, ds, seq![d]);
        assert(seq![d].drop_first() =~= Seq::<char>::empty());
        assert(horner(horner(0, ds), seq![d]) == 10 * horner(0, ds) + digit_val_s(d));
        assert(digit_val_s(d) == m % 10);
    }
}

/// A run of zero characters holds digits denoting zero.
pub proof fn lemma_zero_chars_shape(k: nat)
    ensures
        zero_chars(k).len() == k,
        all_digits(zero_chars(k)),
        horner(0, zero_chars(k)) == 0,
    decreases k,
{
    reveal_with_fuel(horner, 3);
    if k > 0 {
        lemma_zero_chars_shape((k - 1) as nat);
        let zs = zero_chars((k - 1) as nat);
        assert(zero_chars(k) =~= zs + seq!['0']);
        assert(digit_val_s('0') == 0);
        lemma_horner_append(0, zs, seq!['0']);
        assert(seq!['0'].drop_first() =~= Seq::<char>::empty());
        assert forall|j: int| 0 <= j < zero_chars(k).len() implies is_digit_s(
            #[trigger] zero_chars(k)[j],
        ) by {
            if j < zs.len() {
                assert(zero_chars(k)[j] == zs[j]);
            }
        }
    }
}

/// The display text of a canonical number decomposed into the lexer's
/// grammar: a sign, integer digits, and fractional digits, denoting exactly
/// the mantissa and scale it came from.
pub proof fn lemma_render_number_parts(n: Number)
    requires
        n.is_normal(),
    ensures
        ({
            let (ipart, has_dot, fpart) = number_parts(n);
            &&& render_number(n) == sign_chars(n.neg) + ipart + (if has_dot {
                seq!['.'] + fpart
            } else {
                Seq::<char>::empty()
            })
            &&& all_digits(ipart)
            &&& all_digits(fpart)
            &&& ipart.len() > 0
            &&& (!has_dot ==> fpart.len() == 0)
            &&& digits_num(ipart + fpart) == n.mant
            &&& fpart.len() == n.scale
        }),
{
    reveal_with_fuel(horner, 3);
    let ds = dec_digits(n.mant as nat);
    lemma_dec_digits_shape(n.mant as nat);
    lemma_digits_num_dec(n.mant as nat);
    let (ipart, has_dot, fpart) = number_parts(n);
    if n.scale == 0 {
        assert(ipart + fpart =~= ds);
        assert(render_number(n) =~= sign_chars(n.neg) + ds);
    } else if ds.len() > n.scale {
        assert(ipart + fpart =~= ds);
        lemma_horner_split(ds, (ds.len() - n.scale as nat) as nat);
        assert(render_number(n) =~= sign_chars(n.neg) + ipart + (seq!['.'] + fpart));
    } else {
        let pad = (n.scale as nat - ds.len()) as nat;
        lemma_zero_chars_shape(pad);
        assert(ipart =~= seq!['0']);
        assert(fpart =~= zero_chars(pad) + ds);
        // the leading zero and the padding contribute nothing to the value
        lemma_horner_append(0, seq!['0'], zero_chars(pad) + ds);
        assert(seq!['0'].drop_first() =~= Seq::<char>::empty());
        assert(horner(0, seq!['0']) == 0);
        lemma_horner_append(0, zero_chars(pad), ds);
        assert(ipart + fpart =~= seq!['0'] + (zero_chars(pad) + ds));
        assert(digits_num(ipart + fpart) == n.mant);
        assert forall|j: int| 0 <= j < fpart.len() implies is_digit_s(#[trigger] fpart[j]) by {
            if j < pad {
                assert(fpart[j] == zero_chars(pad)[j]);
            } else {
                assert(fpart[j] == ds[j - pad]);
            }
        }
        assert(render_number(n) =~= sign_chars(n.neg) + ipart + (seq!['.'] + fpart));
    }
}

/// The grammar parts of a canonical number's display text.
pub open spec fn number_parts(n: Number) -> (Seq<char>, bool, Seq<char>) {
    let ds = dec_digits(n.mant as nat);
    if n.scale == 0 {
        (ds, false, Seq::<char>::empty())
    } else if ds.len() > n.scale {
        (
            ds.subrange(0, ds.len() - n.scale as nat as int),
            true,
            ds.subrange(ds.len() - n.scale as nat as int, ds.len() as int),
        )
    } else {
        (seq!['0'], true, zero_chars((n.scale as nat - ds.len()) as nat) + ds)
    }
}

/// Whether text beginning with these characters would lex as a number: an
/// optional sign and point directly followed by a digit.
pub open spec fn starts_number(s: Seq<char>) -> bool {
    ||| (s.len() >= 1 && is_digit_s(s[0]))
    ||| (s.len() >= 2 && s[0] == '-' && is_digit_s(s[1]))
    ||| (s.len() >= 2 && s[0] == '.' && is_digit_s(s[1]))
    ||| (s.len() >= 3 && s[0] == '-' && s[1] == '.' && is_digit_s(s[2]))
}

/// The texts that lex back as one atom: nonempty, free of delimiters, not
/// opening a comment, not shaped like a number, and not opening a boolean.
pub open spec fn atom_ok(s: Seq<char>) -> bool {
    &&& s.len() >= 1
    &&& (forall|j: int| 0 <= j < s.len() ==> !is_delim_s(#[trigger] s[j]))
    &&& s[0] != ';'
    &&& !starts_number(s)
    &&& !(s[0] == '#' && s.len() >= 2 && (s[1] == 'f' || s[1] == 't'))
}

/// Trivia skipping stands still on a character that starts a token.
proof fn lemma_trivia_still(code: Seq<char>, st: LexState)
    requires
        0 <= st.it < code.len(),
        !is_ws_s(code[st.it]),
        code[st.it] != ';',
    ensures
        skip_trivia_s(code, st, false) == st,
{
}

/// The lexer reads the same token from a whitespace character as from just
/// past it.
pub proof fn lemma_token_skips_ws(code: Seq<char>, st: LexState)
    requires
        0 <= st.it < code.len(),
        is_ws_s(code[st.it]),
    ensures
        next_token_s(code, st) == next_token_s(code, adv_ws(code, st)),
{
    assert(skip_trivia_s(code, st, false) == skip_trivia_s(code, adv_ws(code, st), false));
}

/// The parser reads the same expression from a whitespace character as from
/// just past it.
pub proof fn lemma_expr_skips_ws(code: Seq<char>, st: LexState)
    requires
        0 <= st.it < code.len(),
        is_ws_s(code[st.it]),
    ensures
        next_expr_s(code, st) == next_expr_s(code, adv_ws(code, st)),
{
    lemma_token_skips_ws(code, st);
    let out = next_token_s(code, st);
    assert(next_token_s(code, adv_ws(code, st)) == out);
}

/// The text of a numeric token.
pub open spec fn num_tok_text(neg: bool, ipart: Seq<char>, has_dot: bool, fpart: Seq<char>) -> Seq<
    char,
> {
    sign_chars(neg) + ipart + (if has_dot {
        seq!['.'] + fpart
    } else {
        Seq::<char>::empty()
    })
}

/// A number's text standing at the cursor, bounded by anything that is
/// neither a digit nor a point, lexes to exactly its number token.
pub proof fn lemma_lex_number_at(
    code: Seq<char>,
    st0: LexState,
    neg: bool,
    ipart: Seq<char>,
    has_dot: bool,
    fpart: Seq<char>,
)
    requires
        0 <= st0.it,
        all_digits(ipart),
        all_digits(fpart),
        ipart.len() > 0 || (has_dot && fpart.len() > 0),
        !has_dot ==> fpart.len() == 0,
        digits_num(ipart + fpart) <= u64::MAX,
        fpart.len() <= u32::MAX,
        st0.it + num_tok_text(neg, ipart, has_dot, fpart).len() <= code.len(),
        forall|j: int|
            0 <= j < num_tok_text(neg, ipart, has_dot, fpart).len() ==> code[st0.it + j]
                == #[trigger] num_tok_text(neg, ipart, has_dot, fpart)[j],
        st0.it + num_tok_text(neg, ipart, has_dot, fpart).len() == code.len() || (!is_digit_s(
            code[st0.it + num_tok_text(neg, ipart, has_dot, fpart).len()],
        ) && code[st0.it + num_tok_text(neg, ipart, has_dot, fpart).len()] != '.'),
    ensures
        ({
            let out = next_token_s(code, st0);
            &&& out.st.it == st0.it + num_tok_text(neg, ipart, has_dot, fpart).len()
            &&& (match out.r {
                Ok(SpecTok::Number(n, _)) => n == crate::number::spec_from_parts(
                    neg,
                    digits_num(ipart + fpart) as u64,
                    fpart.len() as u32,
                ),
                _ => false,
            })
        }),
{
    let tok = num_tok_text(neg, ipart, has_dot, fpart);
    let end: int = st0.it + tok.len();
    let soff: int = if neg {
        1int
    } else {
        0int
    };
    assert(forall|j: int| 0 <= j < tok.len() ==> code[st0.it + j] == #[trigger] tok[j]);
    assert(code[st0.it + 0] == num_tok_text(neg, ipart, has_dot, fpart)[0]);
    assert(code[st0.it] == tok[0]);
    assert(tok[0] == (if neg {
        '-'
    } else if ipart.len() > 0 {
        ipart[0]
    } else {
        '.'
    }));
    lemma_trivia_still(code, st0);
    let st_sign = if neg {
        adv_plain(st0)
    } else {
        st0
    };
    let ioff: int = st0.it + soff;
    if ipart.len() > 0 {
        assert forall|j: int| 0 <= j < ipart.len() implies code[ioff + j] == #[trigger] ipart[j] by {
            assert(tok[soff + j] == ipart[j]);
            assert(code[st0.it + (soff + j)] == tok[soff + j]);
        }
        assert(code[st_sign.it] == ipart[0]);
        assert(is_digit_s(code[st_sign.it]));
        crate::laws::lemma_scan_run(code, st_sign, 0, 0, false, ipart);
        let st_ip = adv_n(st_sign, ipart.len());
        lemma_adv_n(st_sign, ipart.len());
        assert(st_ip.it == ioff + ipart.len());
        if has_dot {
            assert(tok[soff + ipart.len()] == '.');
            assert(code[st0.it + (soff + ipart.len())] == tok[soff + ipart.len()]);
            assert(code[st_ip.it] == '.');
            let st_dot = adv_plain(st_ip);
            assert forall|j: int| 0 <= j < fpart.len() implies code[st_dot.it + j]
                == #[trigger] fpart[j] by {
                assert(tok[soff + ipart.len() + 1 + j] == fpart[j]);
                assert(code[st0.it + (soff + ipart.len() + 1 + j)] == tok[soff + ipart.len() + 1
                    + j]);
            }
            crate::laws::lemma_scan_run(code, st_dot, horner(0, ipart), 0, true, fpart);
            let st_fp = adv_n(st_dot, fpart.len());
            lemma_adv_n(st_dot, fpart.len());
            assert(st_fp.it == end);
            assert(scan_digits_s(code, st_fp, horner(horner(0, ipart), fpart), fpart.len(), true)
                == (st_fp, horner(horner(0, ipart), fpart), fpart.len()));
            lemma_horner_append(0, ipart, fpart);
        } else {
            assert(ipart + fpart =~= ipart);
            assert(st_ip.it == end);
            assert(scan_digits_s(code, st_ip, horner(0, ipart), 0, false) == (
                st_ip,
                horner(0, ipart),
                0nat,
            ));
            lemma_horner_append(0, ipart, fpart);
        }
    } else {
        assert(has_dot && fpart.len() > 0);
        assert(tok[soff] == '.');
        assert(code[st0.it + soff] == tok[soff]);
        assert(code[st_sign.it] == '.');
        let st_dot = adv_plain(st_sign);
        assert forall|j: int| 0 <= j < fpart.len() implies code[st_dot.it + j]
            == #[trigger] fpart[j] by {
            assert(tok[soff + 1 + j] == fpart[j]);
            assert(code[st0.it + (soff + 1 + j)] == tok[soff + 1 + j]);
        }
        assert(code[st_dot.it] == fpart[0]);
        assert(is_digit_s(code[st_dot.it]));
        crate::laws::lemma_scan_run(code, st_dot, 0, 0, true, fpart);
        let st_fp = adv_n(st_dot, fpart.len());
        lemma_adv_n(st_dot, fpart.len());
        assert(st_fp.it == end);
        assert(scan_digits_s(code, st_fp, horner(0, fpart), fpart.len(), true) == (
            st_fp,
            horner(0, fpart),
            fpart.len(),
        ));
        assert(ipart + fpart =~= fpart);
        lemma_horner_append(0, ipart, fpart);
    }
}

/// A canonical number's display text at the cursor lexes back to exactly
/// that number.
pub proof fn lemma_lex_render_number_at(code: Seq<char>, st0: LexState, n: Number)
    requires
        0 <= st0.it,
        n.is_normal(),
        st0.it + render_number(n).len() <= code.len(),
        forall|j: int|
            0 <= j < render_number(n).len() ==> code[st0.it + j] == #[trigger] render_number(n)[j],
        st0.it + render_number(n).len() == code.len() || (!is_digit_s(
            code[st0.it + render_number(n).len()],
        ) && code[st0.it + render_number(n).len()] != '.'),
    ensures
        ({
            let out = next_token_s(code, st0);
            &&& out.st.it == st0.it + render_number(n).len()
            &&& (match out.r {
                Ok(SpecTok::Number(m, _)) => m == n,
                _ => false,
            })
        }),
{
    lemma_render_number_parts(n);
    let (ipart, has_dot, fpart) = number_parts(n);
    lemma_lex_number_at(code, st0, n.neg, ipart, has_dot, fpart);
    assert(crate::number::spec_from_parts(n.neg, n.mant, n.scale) == n);
}

/// A string literal's text at the cursor lexes back to its string token.
pub proof fn lemma_lex_string_at(code: Seq<char>, st0: LexState, s: Seq<char>)
    requires
        0 <= st0.it,
        forall|j: int| 0 <= j < s.len() ==> #[trigger] s[j] != '"',
        st0.it + s.len() + 2 <= code.len(),
        code[st0.it] == '"',
        forall|j: int| 0 <= j < s.len() ==> code[st0.it + 1 + j] == #[trigger] s[j],
        code[st0.it + 1 + s.len()] == '"',
    ensures
        ({
            let out = next_token_s(code, st0);
            &&& out.st.it == st0.it + s.len() + 2
            &&& (match out.r {
                Ok(SpecTok::Str(content, _)) => content == s,
                _ => false,
            })
        }),
{
    lemma_trivia_still(code, st0);
    crate::laws::lemma_scan_string_run(code, adv_plain(st0), Seq::empty(), s);
}

/// A boolean literal's text at the cursor lexes back to its boolean token.
pub proof fn lemma_lex_bool_at(code: Seq<char>, st0: LexState, b: bool)
    requires
        0 <= st0.it,
        st0.it + 2 <= code.len(),
        code[st0.it] == '#',
        code[st0.it + 1] == (if b {
            't'
        } else {
            'f'
        }),
    ensures
        ({
            let out = next_token_s(code, st0);
            &&& out.st.it == st0.it + 2
            &&& (match out.r {
                Ok(SpecTok::Bool(c, _)) => c == b,
                _ => false,
            })
        }),
{
    lemma_trivia_still(code, st0);
}

/// The atom scanner collects exactly the delimiter-free run at the cursor.
proof fn lemma_scan_atom_run(code: Seq<char>, st: LexState, acc: Seq<char>, s: Seq<char>)
    requires
        0 <= st.it,
        st.it + s.len() <= code.len(),
        forall|j: int| 0 <= j < s.len() ==> code[st.it + j] == #[trigger] s[j] && !is_delim_s(s[j]),
        st.it + s.len() == code.len() || is_delim_s(code[st.it + s.len()]),
    ensures
        ({
            let (st2, content) = scan_atom_s(code, st, acc);
            &&& st2.it == st.it + s.len()
            &&& content == acc + s
        }),
    decreases s.len(),
{
    if s.len() == 0 {
        assert(acc + s =~= acc);
    } else {
        assert(code[st.it] == s[0]);
        let rest = s.drop_first();
        assert(forall|j: int|
            0 <= j < rest.len() ==> code[adv_plain(st).it + j] == #[trigger] rest[j] && !is_delim_s(
                rest[j],
            ));
        lemma_scan_atom_run(code, adv_plain(st), acc.push(s[0]), rest);
        assert(acc.push(s[0]) + rest =~= acc + s);
    }
}

/// An atom's text at the cursor, bounded by a delimiter or the end, lexes
/// back to its atom token.
pub proof fn lemma_lex_atom_at(code: Seq<char>, st0: LexState, s: Seq<char>)
    requires
        0 <= st0.it,
        atom_ok(s),
        st0.it + s.len() <= code.len(),
        forall|j: int| 0 <= j < s.len() ==> code[st0.it + j] == #[trigger] s[j],
        st0.it + s.len() == code.len() || is_delim_s(code[st0.it + s.len()]),
    ensures
        ({
            let out = next_token_s(code, st0);
            &&& out.st.it == st0.it + s.len()
            &&& (match out.r {
                Ok(SpecTok::Atom(content, _)) => content == s,
                _ => false,
            })
        }),
{
    assert(code[st0.it] == s[0]);
    assert(!is_delim_s(s[0]));
    lemma_trivia_still(code, st0);
    // the numeric attempt cannot find a digit where it needs one
    let st = st0;
    let neg = code[st.it] == '-';
    let st1 = if neg {
        adv_plain(st)
    } else {
        st
    };
    if 0 <= st1.it < code.len() && code[st1.it] == '.' {
        let st2 = adv_plain(st1);
        assert(!(0 <= st2.it < code.len() && is_digit_s(code[st2.it]))) by {
            if st2.it < code.len() {
                if st2.it - st0.it < s.len() {
                    assert(code[st2.it] == s[st2.it - st0.it]);
                } else {
                    assert(st2.it == st0.it + s.len());
                    assert(is_delim_s(code[st2.it]));
                }
            }
        }
    } else {
        assert(!(0 <= st1.it < code.len() && is_digit_s(code[st1.it]))) by {
            if st1.it < code.len() {
                if st1.it - st0.it < s.len() {
                    assert(code[st1.it] == s[st1.it - st0.it]);
                } else {
                }
            }
        }
    }
    // nor can the boolean attempt find its second character
    if code[st.it] == '#' && st.it + 1 < code.len() {
        if s.len() >= 2 {
            assert(code[st.it + 1] == s[1]);
        } else {
            assert(st.it + 1 == st0.it + s.len());
            assert(is_delim_s(code[st.it + 1]));
        }
    }
    lemma_scan_atom_run(code, st0, Seq::empty(), s);
    assert(Seq::empty() + s =~= s);
}

/// A single-character grouping token at the cursor lexes to itself.
pub proof fn lemma_lex_paren_at(code: Seq<char>, st0: LexState)
    requires
        0 <= st0.it < code.len(),
        code[st0.it] == '(' || code[st0.it] == ')',
    ensures
        ({
            let out = next_token_s(code, st0);
            &&& out.st.it == st0.it + 1
            &&& (match out.r {
                Ok(SpecTok::OpenParen(_)) => code[st0.it] == '(',
                Ok(SpecTok::CloseParen(_)) => code[st0.it] == ')',
                _ => false,
            })
        }),
{
    lemma_trivia_still(code, st0);
}

/// Trees of literals: literal leaves, and lists of such trees.
pub open spec fn literal_tree(n: SpecNode) -> bool
    decreases n,
{
    match n {
        SpecNode::Num(x, _) => x.is_normal(),
        SpecNode::Str(s, _) => forall|j: int| 0 <= j < s.len() ==> #[trigger] s[j] != '"',
        SpecNode::Bool(_, _) => true,
        SpecNode::Atom(s, _) => atom_ok(s),
        SpecNode::List(xs, _) => literal_trees(xs),
        _ => false,
    }
}

/// Every member is a tree of literals.
pub open spec fn literal_trees(xs: Seq<SpecNode>) -> bool
    decreases xs,
{
    if xs.len() == 0 {
        true
    } else {
        literal_tree(xs[0]) && literal_trees(xs.drop_first())
    }
}

/// Whether two trees agree node for node, ignoring flags and locations.
pub open spec fn same_shape(a: SpecNode, b: SpecNode) -> bool
    decreases a,
{
    match (a, b) {
        (SpecNode::Unit(_), SpecNode::Unit(_)) => true,
        (SpecNode::Atom(x, _), SpecNode::Atom(y, _)) => x == y,
        (SpecNode::Str(x, _), SpecNode::Str(y, _)) => x == y,
        (SpecNode::Num(x, _), SpecNode::Num(y, _)) => x == y,
        (SpecNode::Bool(x, _), SpecNode::Bool(y, _)) => x == y,
        (SpecNode::List(xs, _), SpecNode::List(ys, _)) => same_shapes(xs, ys),
        (SpecNode::Progn(xs, _), SpecNode::Progn(ys, _)) => same_shapes(xs, ys),
        _ => false,
    }
}

/// Whether two sequences of trees agree pairwise.
pub open spec fn same_shapes(xs: Seq<SpecNode>, ys: Seq<SpecNode>) -> bool
    decreases xs,
{
    if xs.len() != ys.len() {
        false
    } else if xs.len() == 0 {
        true
    } else {
        same_shape(xs[0], ys[0]) && same_shapes(xs.drop_first(), ys.drop_first())
    }
}

/// Pairwise shape agreement, member by member.
pub proof fn lemma_same_shapes_pointwise(xs: Seq<SpecNode>, ys: Seq<SpecNode>)
    requires
        xs.len() == ys.len(),
        forall|i: int| 0 <= i < xs.len() ==> same_shape(#[trigger] xs[i], ys[i]),
    ensures
        same_shapes(xs, ys),
    decreases xs.len(),
{
    if xs.len() > 0 {
        assert(forall|i: int|
            0 <= i < xs.drop_first().len() ==> same_shape(
                #[trigger] xs.drop_first()[i],
                ys.drop_first()[i],
            ));
        lemma_same_shapes_pointwise(xs.drop_first(), ys.drop_first());
    }
}

/// The display text of a literal tree is nonempty and starts no trivia.
proof fn lemma_render_head(n: SpecNode)
    requires
        literal_tree(n),
    ensures
        render_node(n).len() >= 1,
        !is_ws_s(render_node(n)[0]),
        render_node(n)[0] != ';',
{
    match n {
        SpecNode::Num(x, _) => {
            lemma_render_number_parts(x);
            let (ipart, has_dot, fpart) = number_parts(x);
            if x.neg {
                assert(render_node(n)[0] == '-');
            } else {
                assert(render_node(n)[0] == ipart[0]);
                assert(is_digit_s(ipart[0]));
            }
        },
        _ => {},
    }
}

/// The display texts of a sequence split off their first member.
proof fn lemma_render_nodes_front(xs: Seq<SpecNode>)
    requires
        xs.len() >= 1,
    ensures
        render_nodes(xs) == render_node(xs[0]) + (if xs.len() == 1 {
            Seq::<char>::empty()
        } else {
            seq![' '] + render_nodes(xs.drop_first())
        }),
    decreases xs.len(),
{
    if xs.len() == 1 {
        assert(render_nodes(xs) =~= render_node(xs[0]) + Seq::<char>::empty());
    } else if xs.len() == 2 {
        assert(xs.drop_last() =~= seq![xs[0]]);
        assert(xs.drop_first() =~= seq![xs[1]]);
        let a = render_node(xs[0]);
        let sp = seq![' '];
        let l = render_node(xs[1]);
        assert(xs.drop_last()[0] == xs[0]);
        assert(render_nodes(xs.drop_last()) == a);
        assert(xs.last() == xs[1]);
        assert(render_nodes(xs) == a + sp + l);
        assert(xs.drop_first()[0] == xs[1]);
        assert(render_nodes(xs.drop_first()) == l);
        assert(a + sp + l =~= a + (sp + l));
        assert(render_nodes(xs) == render_node(xs[0]) + (sp + render_nodes(xs.drop_first())));
    } else {
        lemma_render_nodes_front(xs.drop_last());
        assert(xs.drop_last()[0] == xs[0]);
        assert(xs.drop_last().drop_first() =~= xs.drop_first().drop_last());
        assert(xs.drop_first().last() == xs.last());
        let a = render_node(xs[0]);
        let sp = seq![' '];
        let x1 = render_nodes(xs.drop_last().drop_first());
        let l = render_node(xs.last());
        assert(render_nodes(xs.drop_last()) == a + (sp + x1));
        assert(render_nodes(xs) == (a + (sp + x1)) + sp + l);
        assert(render_nodes(xs.drop_first()) == render_nodes(xs.drop_first().drop_last()) + sp
            + l);
        assert(render_nodes(xs.drop_first().drop_last()) == x1);
        assert((a + (sp + x1)) + sp + l =~= a + (sp + (x1 + sp + l)));
        assert(render_nodes(xs) == render_node(xs[0]) + (sp + render_nodes(xs.drop_first())));
    }
}

/// The text a list body parses from: an optional leading space, the
/// space-joined members, and the closing parenthesis.
pub open spec fn elems_text(lead: bool, xs: Seq<SpecNode>) -> Seq<char> {
    (if lead {
        seq![' ']
    } else {
        Seq::<char>::empty()
    }) + render_nodes(xs) + seq![')']
}

/// Parsing the display text of a literal tree standing at the cursor,
/// bounded by a space, a closing parenthesis or the end, yields a tree of
/// the same shape, consuming exactly the text.
proof fn lemma_parse_at(code: Seq<char>, st: LexState, n: SpecNode)
    requires
        0 <= st.it,
        literal_tree(n),
        st.it + render_node(n).len() <= code.len(),
        forall|j: int|
            0 <= j < render_node(n).len() ==> code[st.it + j] == #[trigger] render_node(n)[j],
        st.it + render_node(n).len() == code.len() || code[st.it + render_node(n).len()] == ' '
            || code[st.it + render_node(n).len()] == ')',
    ensures
        ({
            let o = next_expr_s(code, st);
            &&& o.st.it == st.it + render_node(n).len()
            &&& (match o.r {
                Ok(m) => same_shape(m, n),
                _ => false,
            })
        }),
    decreases n,
{
    let r = render_node(n);
    let end: int = st.it + r.len();
    match n {
        SpecNode::Num(x, _) => {
            lemma_lex_render_number_at(code, st, x);
        },
        SpecNode::Str(sq, _) => {
            assert(code[st.it + 0] == r[0]);
            assert(r[0] == '"');
            assert forall|j: int| 0 <= j < sq.len() implies code[st.it + 1 + j] == #[trigger] sq[j]
                by {
                assert(r[1 + j] == sq[j]);
                assert(code[st.it + (1 + j)] == r[1 + j]);
            }
            assert(r[1 + sq.len() as int] == '"');
            assert(code[st.it + (1 + sq.len() as int)] == r[1 + sq.len() as int]);
            lemma_lex_string_at(code, st, sq);
        },
        SpecNode::Bool(b, _) => {
            assert(code[st.it + 0] == r[0]);
            assert(code[st.it + 1] == r[1]);
            lemma_lex_bool_at(code, st, b);
        },
        SpecNode::Atom(sq, _) => {
            assert(r == sq);
            assert(forall|j: int|
                0 <= j < sq.len() ==> code[st.it + j] == #[trigger] sq[j]);
            lemma_lex_atom_at(code, st, sq);
        },
        SpecNode::List(xs, _) => {
            assert(code[st.it + 0] == r[0]);
            assert(r[0] == '(');
            lemma_lex_paren_at(code, st);
            let out = next_token_s(code, st);
            let st1 = out.st;
            assert(st1.it == st.it + 1);
            assert forall|j: int|
                0 <= j < elems_text(false, xs).len() implies code[st1.it + j] == #[trigger] elems_text(
                false,
                xs,
            )[j] by {
                assert(r[1 + j] == elems_text(false, xs)[j]) by {
                    assert(r =~= seq!['('] + elems_text(false, xs));
                }
                assert(code[st.it + (1 + j)] == r[1 + j]);
            }
            assert(r.len() == 1 + elems_text(false, xs).len()) by {
                assert(r =~= seq!['('] + elems_text(false, xs));
            }
            lemma_parse_elems(code, st1, xs, false);
            let o = parse_list_s(code, st1, arbitrary_loc_of(out), false, Seq::empty());
            assert(o.st.it == st1.it + elems_text(false, xs).len());
            match o.r {
                Ok(m) => {
                    match m {
                        SpecNode::List(es, _) => {
                            assert forall|i: int| 0 <= i < es.len() implies same_shape(
                                #[trigger] es[i],
                                xs[i],
                            ) by {
                                assert(same_shape(es[0 + i], xs[i]));
                            }
                            lemma_same_shapes_pointwise(es, xs);
                        },
                        _ => {
                            assert(false);
                        },
                    }
                },
                _ => {
                    assert(false);
                },
            }
        },
        _ => {},
    }
}

/// The opening location carried by an open-parenthesis token; which one it
/// is does not matter to the round trip.
spec fn arbitrary_loc_of(out: crate::reader::LexOut) -> Loc {
    match out.r {
        Ok(SpecTok::OpenParen(l)) => l,
        _ => Loc { line: 0, column: 0 },
    }
}

/// Parsing a list body laid out at the cursor appends trees of the members'
/// shapes to the accumulator and consumes exactly the text.
#[verifier::rlimit(100)]
proof fn lemma_parse_elems(code: Seq<char>, st: LexState, xs: Seq<SpecNode>, lead: bool)
    requires
        0 <= st.it,
        literal_trees(xs),
        st.it + elems_text(lead, xs).len() <= code.len(),
        forall|j: int|
            0 <= j < elems_text(lead, xs).len() ==> code[st.it + j] == #[trigger] elems_text(
                lead,
                xs,
            )[j],
    ensures
        forall|open: Loc, quoted: bool, acc: Seq<SpecNode>|
            {
                let o = #[trigger] parse_list_s(code, st, open, quoted, acc);
                &&& o.st.it == st.it + elems_text(lead, xs).len()
                &&& (match o.r {
                    Ok(m) => m matches SpecNode::List(es, _) && es.len() == acc.len() + xs.len()
                        && (forall|k: int| 0 <= k < acc.len() ==> #[trigger] es[k] == acc[k]) && (
                    forall|k: int|
                        0 <= k < xs.len() ==> same_shape(#[trigger] es[acc.len() + k], xs[k])),
                    _ => false,
                })
            },
    decreases xs,
{
    let seg = elems_text(lead, xs);
    let stp = if lead {
        adv_ws(code, st)
    } else {
        st
    };
    if lead {
        assert(code[st.it + 0] == seg[0]);
        assert(seg[0] == ' ');
        assert(is_ws_s(code[st.it]));
    }
    assert forall|open: Loc, quoted: bool, acc: Seq<SpecNode>|
        {
            let o = #[trigger] parse_list_s(code, st, open, quoted, acc);
            &&& o.st.it == st.it + elems_text(lead, xs).len()
            &&& (match o.r {
                Ok(m) => m matches SpecNode::List(es, _) && es.len() == acc.len() + xs.len() && (
                forall|k: int| 0 <= k < acc.len() ==> #[trigger] es[k] == acc[k]) && (forall|k: int|
                    0 <= k < xs.len() ==> same_shape(#[trigger] es[acc.len() + k], xs[k])),
                _ => false,
            })
        } by {
        if lead {
            lemma_expr_skips_ws(code, st);
        }
        if xs.len() == 0 {
            let loff: int = if lead {
                1int
            } else {
                0int
            };
            assert(seg =~= (if lead {
                seq![' ']
            } else {
                Seq::<char>::empty()
            }) + seq![')']);
            assert(code[st.it + loff] == seg[loff]);
            assert(seg[loff] == ')');
            assert(code[stp.it] == ')');
            lemma_lex_paren_at(code, stp);
            let sub = next_expr_s(code, st);
            assert(sub == next_expr_s(code, stp));
            assert(sub.st.it == stp.it + 1);
            let o = parse_list_s(code, st, open, quoted, acc);
            assert(o.st.it == st.it + seg.len());
            assert(match o.r {
                Ok(m) => m matches SpecNode::List(es, _) && es =~= acc,
                _ => false,
            });
        } else {
            let loff: int = if lead {
                1int
            } else {
                0int
            };
            let e0 = xs[0];
            let r0 = render_node(e0);
            lemma_render_nodes_front(xs);
            lemma_render_head(e0);
            let rest = xs.drop_first();
            let seg_rest = elems_text(xs.len() >= 2, rest);
            assert(seg =~= (if lead {
                seq![' ']
            } else {
                Seq::<char>::empty()
            }) + r0 + seg_rest) by {
                if xs.len() == 1 {
                    assert(render_nodes(xs) =~= r0);
                    assert(seg_rest =~= seq![')']);
                } else {
                    assert(render_nodes(rest).len() >= 0);
                }
            }
            assert forall|j: int| 0 <= j < r0.len() implies code[stp.it + j] == #[trigger] r0[j] by {
                assert(seg[loff + j] == r0[j]);
                assert(code[st.it + (loff + j)] == seg[loff + j]);
            }
            assert(stp.it + r0.len() < code.len());
            assert(code[stp.it + r0.len()] == seg[loff + r0.len()]);
            assert(seg[loff + r0.len()] == seg_rest[0]);
            assert(seg_rest[0] == ' ' || seg_rest[0] == ')') by {
                if xs.len() >= 2 {
                } else {
                }
            }
            lemma_parse_at(code, stp, e0);
            let sub = next_expr_s(code, st);
            assert(sub == next_expr_s(code, stp));
            let m0 = (match sub.r {
                Ok(m) => m,
                _ => arbitrary(),
            });
            assert(same_shape(m0, e0));
            assert(!(e0 is Unit)) by {
                if e0 is Unit {
                    assert(!literal_tree(e0));
                }
            }
            assert(!(m0 is Unit));
            assert(sub.st.it == stp.it + r0.len());
            assert forall|j: int|
                0 <= j < seg_rest.len() implies code[sub.st.it + j] == #[trigger] seg_rest[j] by {
                assert(seg[loff + r0.len() + j] == seg_rest[j]);
                assert(code[st.it + (loff + r0.len() + j)] == seg[loff + r0.len() + j]);
            }
            assert(literal_trees(rest));
            lemma_parse_elems(code, sub.st, rest, xs.len() >= 2);
            let o = parse_list_s(code, st, open, quoted, acc);
            let j2 = sub.st;
            assert(j2.it > st.it && j2.it <= code.len());
            let o2 = parse_list_s(code, j2, open, quoted, acc.push(m0));
            assert(o == o2) by {
                assert(parse_list_s(code, st, open, quoted, acc) == parse_list_s(
                    code,
                    LexState { it: j2.it, loc: j2.loc },
                    open,
                    quoted,
                    acc.push(m0),
                ));
            }
            assert(o.st.it == j2.it + seg_rest.len());
            assert(o.st.it == st.it + seg.len());
            match o2.r {
                Ok(m) => {
                    let es = (match m {
                        SpecNode::List(es, _) => es,
                        _ => arbitrary(),
                    });
                    assert(es.len() == acc.len() + xs.len());
                    assert(acc.push(m0).len() == acc.len() + 1);
                    assert forall|k: int| 0 <= k < acc.len() implies #[trigger] es[k] == acc[k] by {
                        assert(es[k] == acc.push(m0)[k]);
                    }
                    assert forall|k: int|
                        0 <= k < xs.len() implies same_shape(#[trigger] es[acc.len() + k], xs[k]) by {
                        if k == 0 {
                            assert(es[acc.len() as int] == acc.push(m0)[acc.len() as int]);
                            assert(es[acc.len() as int] == m0);
                        } else {
                            assert(same_shape(es[acc.push(m0).len() + (k - 1)], rest[k - 1]));
                            assert(rest[k - 1] == xs[k]);
                        }
                    }
                },
                _ => {
                    assert(false);
                },
            }
        }
    }
}

/// Law: parsing the display form of a tree of literals yields a tree of
/// exactly the same shape, consuming the whole text — re-parsing a rendered
/// tree round-trips.
pub proof fn lemma_parse_render(n: SpecNode, loc: Loc)
    requires
        literal_tree(n),
    ensures
        ({
            let code = render_node(n);
            let o = next_expr_s(code, LexState { it: 0, loc });
            &&& o.st.it == code.len()
            &&& (match o.r {
                Ok(m) => same_shape(m, n),
                _ => false,
            })
        }),
{
    let code = render_node(n);
    lemma_render_head(n);
    assert(forall|j: int| 0 <= j < code.len() ==> code[0 + j] == #[trigger] code[j]);
    lemma_parse_at(code, LexState { it: 0, loc }, n);
}

/// Shape agreement of sequences, read back member by member.
proof fn lemma_same_shapes_index(xs: Seq<SpecNode>, ys: Seq<SpecNode>)
    requires
        same_shapes(xs, ys),
    ensures
        xs.len() == ys.len(),
        forall|i: int| 0 <= i < xs.len() ==> same_shape(#[trigger] xs[i], ys[i]),
    decreases xs.len(),
{
    if xs.len() > 0 {
        lemma_same_shapes_index(xs.drop_first(), ys.drop_first());
        assert forall|i: int| 0 <= i < xs.len() implies same_shape(#[trigger] xs[i], ys[i]) by {
            if i > 0 {
                assert(xs.drop_first()[i - 1] == xs[i]);
                assert(ys.drop_first()[i - 1] == ys[i]);
            }
        }
    }
}

/// Trees of the same shape display identically.
pub proof fn lemma_same_shape_render(a: SpecNode, b: SpecNode)
    requires
        same_shape(a, b),
    ensures
        render_node(a) == render_node(b),
    decreases a,
{
    match (a, b) {
        (SpecNode::List(xs, _), SpecNode::List(ys, _)) => {
            lemma_same_shapes_render(xs, ys);
        },
        (SpecNode::Progn(xs, _), SpecNode::Progn(ys, _)) => {
            lemma_same_shapes_render(xs, ys);
        },
        _ => {},
    }
}

/// Sequences of trees of the same shapes display identically.
proof fn lemma_same_shapes_render(xs: Seq<SpecNode>, ys: Seq<SpecNode>)
    requires
        same_shapes(xs, ys),
    ensures
        render_nodes(xs) == render_nodes(ys),
    decreases xs,
{
    if xs.len() > 0 {
        lemma_same_shapes_index(xs, ys);
        assert(forall|i: int|
            0 <= i < xs.drop_last().len() ==> same_shape(
                #[trigger] xs.drop_last()[i],
                ys.drop_last()[i],
            ));
        lemma_same_shapes_pointwise(xs.drop_last(), ys.drop_last());
        lemma_same_shapes_render(xs.drop_last(), ys.drop_last());
        lemma_same_shape_render(xs.last(), ys.last());
        if xs.len() == 1 {
            assert(render_nodes(xs) == render_node(xs[0]));
            assert(render_nodes(ys) == render_node(ys[0]));
        }
    }
}

/// Law: parsing is idempotent on rendered trees of literals — the parsed
/// tree displays as exactly the text that was parsed.
pub proof fn lemma_parse_render_idempotent(n: SpecNode, loc: Loc)
    requires
        literal_tree(n),
    ensures
        ({
            let code = render_node(n);
            let o = next_expr_s(code, LexState { it: 0, loc });
            &&& o.st.it == code.len()
            &&& (match o.r {
                Ok(m) => render_node(m) == code,
                _ => false,
            })
        }),
{
    lemma_parse_render(n, loc);
    let code = render_node(n);
    let o = next_expr_s(code, LexState { it: 0, loc });
    match o.r {
        Ok(m) => {
            lemma_same_shape_render(m, n);
        },
        _ => {},
    }
}

/// Splitting a digit run splits its accumulation.
proof fn lemma_horner_split(ds: Seq<char>, cut: nat)
    requires
        cut <= ds.len(),
    ensures
        horner(0, ds) == horner(horner(0, ds.subrange(0, cut as int)), ds.subrange(
            cut as int,
            ds.len() as int,
        )),
{
    lemma_horner_append(
        0,
        ds.subrange(0, cut as int),
        ds.subrange(cut as int, ds.len() as int),
    );
    assert(ds.subrange(0, cut as int) + ds.subrange(cut as int, ds.len() as int) =~= ds);
}

} // verus!
