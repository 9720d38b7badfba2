//! Backup and restore. Every table round-trips exactly; the tag links of a transaction are
//! kept in one column as its tag ids joined with `'|'`.

use crate::text::{decimal, digit_char, int_text, push_int, text_lt, zero_pad};
use vstd::prelude::*;

verus! {

/// How many rows of each kind a restore brought in.
#[derive(Clone, Copy, Debug, PartialEq, Eq, Structural)]
pub struct ImportSummary {
    pub accounts: usize,
    pub tags: usize,
    pub transactions: usize,
    pub recurring: usize,
    pub budgets: usize,
    pub debts: usize,
}

/// The temporary name a tag gets while a restore inserts every tag before it links them to
/// their parents: unique per row, so no two top-level names collide in the meantime.
pub fn import_placeholder_name(id: i64) -> (r: String)
    ensures
        r@ == "__import_tmp_"@ + int_text(id as int),
{
    let mut s = String::from_str("__import_tmp_");
    push_int(&mut s, id);
    s
}

/// Two different tags never share a temporary name during a restore, so inserting every tag
/// under its temporary name cannot collide.
pub proof fn lemma_placeholder_names_distinct(a: i64, b: i64)
    requires
        a != b,
    ensures
        "__import_tmp_"@ + int_text(a as int) != "__import_tmp_"@ + int_text(b as int),
{
    lemma_int_text_parses(a);
    lemma_int_text_parses(b);
    let p = "__import_tmp_"@;
    let x = int_text(a as int);
    let y = int_text(b as int);
    if p + x == p + y {
        assert((p + x).skip(p.len() as int) =~= x);
        assert((p + y).skip(p.len() as int) =~= y);
    }
}

/// The pieces of `s` between occurrences of `sep`, as `str::split` gives them: one more
/// piece than there are separators, empty pieces included.
pub open spec fn split_on(s: Seq<char>, sep: char) -> Seq<Seq<char>>
    decreases s.len(),
{
    if s.len() == 0 {
        seq![Seq::<char>::empty()]
    } else {
        let p = split_on(s.drop_last(), sep);
        if s.last() == sep {
            p.push(Seq::<char>::empty())
        } else {
            p.update(p.len() - 1, p.last().push(s.last()))
        }
    }
}

pub open spec fn is_digit(c: char) -> bool {
    '0' <= c <= '9'
}

pub open spec fn digit_value(c: char) -> int {
    (c as int) - ('0' as int)
}

pub open spec fn all_digits(s: Seq<char>) -> bool {
    forall|i: int| 0 <= i < s.len() ==> is_digit(#[trigger] s[i])
}

/// The number that a run of decimal digits stands for.
pub open spec fn digits_value(s: Seq<char>) -> int
    decreases s.len(),
{
    if s.len() == 0 {
        0
    } else {
        digits_value(s.drop_last()) * 10 + digit_value(s.last())
    }
}

/// What `str::parse::<i64>` gives: an optional `+` or `-` sign followed by one or more
/// ASCII digits, whose value fits in an `i64`; anything else is an error.
pub open spec fn parse_i64_text(s: Seq<char>) -> Option<i64> {
    let neg = s.len() > 0 && s[0] == '-';
    let body = if s.len() > 0 && (s[0] == '-' || s[0] == '+') {
        s.drop_first()
    } else {
        s
    };
    let v = if neg {
        -digits_value(body)
    } else {
        digits_value(body)
    };
    if body.len() > 0 && all_digits(body) && i64::MIN <= v <= i64::MAX {
        Some(v as i64)
    } else {
        None
    }
}

/// The ids that a run of pieces gives: each non-empty piece that parses as an `i64`, in
/// order; the others are skipped.
pub open spec fn ids_of_pieces(pieces: Seq<Seq<char>>) -> Seq<i64>
    decreases pieces.len(),
{
    if pieces.len() == 0 {
        Seq::empty()
    } else {
        let rest = ids_of_pieces(pieces.drop_last());
        let p = pieces.last();
        if p.len() > 0 && parse_i64_text(p) is Some {
            rest.push(parse_i64_text(p)->0)
        } else {
            rest
        }
    }
}

/// The tag ids stored in a `'|'`-joined column.
pub open spec fn ids_of_text(s: Seq<char>) -> Seq<i64> {
    ids_of_pieces(split_on(s, '|'))
}

/// Texts joined with a separator between each two.
pub open spec fn join_with(texts: Seq<Seq<char>>, sep: char) -> Seq<char>
    decreases texts.len(),
{
    if texts.len() == 0 {
        Seq::empty()
    } else if texts.len() == 1 {
        texts[0]
    } else {
        join_with(texts.drop_last(), sep).push(sep) + texts.last()
    }
}

/// The column text of a list of ids: their decimal texts joined with `'|'`.
pub open spec fn ids_text(ids: Seq<i64>) -> Seq<char> {
    join_with(ids.map_values(|v: i64| int_text(v as int)), '|')
}

/// `10` to the power `w`.
pub open spec fn pow10(w: nat) -> nat
    decreases w,
{
    if w == 0 {
        1
    } else {
        10 * pow10((w - 1) as nat)
    }
}

proof fn lemma_digits_value_nonneg(s: Seq<char>)
    requires
        all_digits(s),
    ensures
        digits_value(s) >= 0,
{
    lemma_digits_value_prefix(s, 0);
}

/// Two runs of digits of the same length with the same value are the same text.
proof fn lemma_digits_injective(a: Seq<char>, b: Seq<char>)
    requires
        a.len() == b.len(),
        all_digits(a),
        all_digits(b),
        digits_value(a) == digits_value(b),
    ensures
        a == b,
    decreases a.len(),
{
    if a.len() > 0 {
        let a1 = a.drop_last();
        let b1 = b.drop_last();
        assert(all_digits(a1));
        assert(all_digits(b1));
        assert(is_digit(a.last()) && is_digit(b.last()));
        lemma_digits_value_nonneg(a1);
        lemma_digits_value_nonneg(b1);
        assert(digits_value(a1) == digits_value(b1));
        lemma_digits_injective(a1, b1);
        assert(a.last() == b.last());
        assert(a =~= a1.push(a.last()));
        assert(b =~= b1.push(b.last()));
    } else {
        assert(a =~= b);
    }
}

/// Of two runs of digits of the same length, the one of smaller value comes first as text.
pub proof fn lemma_digits_order(a: Seq<char>, b: Seq<char>)
    requires
        a.len() == b.len(),
        all_digits(a),
        all_digits(b),
        digits_value(a) < digits_value(b),
    ensures
        text_lt(a, b),
    decreases a.len(),
{
    let n = a.len() as int;
    let a1 = a.drop_last();
    let b1 = b.drop_last();
    assert(all_digits(a1));
    assert(all_digits(b1));
    assert(is_digit(a.last()) && is_digit(b.last()));
    lemma_digits_value_nonneg(a1);
    lemma_digits_value_nonneg(b1);
    if digits_value(a1) < digits_value(b1) {
        lemma_digits_order(a1, b1);
        let i = choose|i: int|
            0 <= i < a1.len() && i < b1.len() && a1.take(i) == b1.take(i) && #[trigger] a1[i] < b1[i];
        assert(a.take(i) =~= a1.take(i));
        assert(b.take(i) =~= b1.take(i));
        assert(a[i] < b[i]);
    } else {
        assert(digits_value(a1) == digits_value(b1));
        lemma_digits_injective(a1, b1);
        assert(a.take(n - 1) =~= a1);
        assert(b.take(n - 1) =~= b1);
        assert(a[n - 1] < b[n - 1]);
    }
}

proof fn lemma_leading_zero(s: Seq<char>)
    ensures
        digits_value(seq!['0'] + s) == digits_value(s),
    decreases s.len(),
{
    let t = seq!['0'] + s;
    if s.len() == 0 {
        assert(t.drop_last() =~= Seq::<char>::empty());
        assert(t.last() == '0');
        assert(digits_value(Seq::<char>::empty()) == 0);
        assert(digits_value(t) == digits_value(t.drop_last()) * 10 + digit_value(t.last()));
    } else {
        lemma_leading_zero(s.drop_last());
        assert(t.drop_last() =~= seq!['0'] + s.drop_last());
        assert(t.last() == s.last());
    }
}

/// Padding digits with zeros keeps them digits of the same value, `width` long where they
/// were shorter.
pub proof fn lemma_zero_pad_digits(s: Seq<char>, width: nat)
    requires
        all_digits(s),
    ensures
        all_digits(zero_pad(s, width)),
        digits_value(zero_pad(s, width)) == digits_value(s),
        zero_pad(s, width).len() == (if s.len() >= width {
            s.len()
        } else {
            width
        }),
    decreases width - s.len(),
{
    if s.len() < width {
        let t = seq!['0'] + s;
        assert(all_digits(t)) by {
            assert forall|i: int| 0 <= i < t.len() implies is_digit(#[trigger] t[i]) by {
                if i > 0 {
                    assert(t[i] == s[i - 1]);
                }
            }
        }
        lemma_leading_zero(s);
        lemma_zero_pad_digits(t, width);
    }
}

/// A number below `10` to the power `w` has at most `w` decimal digits.
pub proof fn lemma_decimal_short(n: nat, w: nat)
    requires
        w >= 1,
        n < pow10(w),
    ensures
        decimal(n).len() <= w,
    decreases w,
{
    if n >= 10 {
        if w == 1 {
            assert(pow10(1) == 10) by {
                reveal_with_fuel(pow10, 2);
            }
        } else {
            assert(n / 10 < pow10((w - 1) as nat));
            lemma_decimal_short(n / 10, (w - 1) as nat);
        }
    }
}

/// The zero-padded decimal text of a number below `10` to the power `w`: `w` digits of its
/// value.
pub proof fn lemma_padded_digits(n: nat, w: nat)
    requires
        w >= 1,
        n < pow10(w),
    ensures
        zero_pad(decimal(n), w).len() == w,
        all_digits(zero_pad(decimal(n), w)),
        digits_value(zero_pad(decimal(n), w)) == n,
{
    lemma_decimal_short(n, w);
    lemma_decimal_digits(n);
    lemma_zero_pad_digits(decimal(n), w);
}

proof fn lemma_digits_value_prefix(s: Seq<char>, k: int)
    requires
        0 <= k <= s.len(),
        forall|i: int| 0 <= i < s.len() ==> is_digit(#[trigger] s[i]),
    ensures
        0 <= digits_value(s.take(k)) <= digits_value(s),
    decreases s.len(),
{
    if s.len() > 0 {
        if k == s.len() {
            assert(s.take(k) =~= s);
            lemma_digits_value_prefix(s.drop_last(), k - 1);
            assert(s.drop_last().take(k - 1) =~= s.drop_last());
        } else {
            lemma_digits_value_prefix(s.drop_last(), k);
            assert(s.drop_last().take(k) =~= s.take(k));
        }
    }
}

fn parse_i64(piece: &Vec<char>) -> (r: Option<i64>)
    ensures
        r == parse_i64_text(piece@),
{
    let n = piece.len();
    if n == 0 {
        return None;
    }
    let neg = piece[0] == '-';
    let start: usize = if piece[0] == '-' || piece[0] == '+' {
        1
    } else {
        0
    };
    if start == n {
        return None;
    }
    let ghost body = if piece@[0] == '-' || piece@[0] == '+' {
        piece@.drop_first()
    } else {
        piece@
    };
    assert(body =~= piece@.subrange(start as int, n as int));
    let mut v: i64 = 0;
    let mut i = start;
    while i < n
        invariant
            start <= i <= n,
            1 <= n,
            n == piece@.len(),
            neg == (piece@[0] == '-'),
            start == (if piece@[0] == '-' || piece@[0] == '+' {
                1usize
            } else {
                0usize
            }),
            body == (if piece@[0] == '-' || piece@[0] == '+' {
                piece@.drop_first()
            } else {
                piece@
            }),
            body =~= piece@.subrange(start as int, n as int),
            forall|j: int| 0 <= j < i - start ==> is_digit(#[trigger] body[j]),
            neg ==> v == -digits_value(body.take(i - start)),
            !neg ==> v == digits_value(body.take(i - start)),
        decreases n - i,
    {
        let c = piece[i];
        if !('0' <= c && c <= '9') {
            assert(!is_digit(body[i - start]));
            assert(!all_digits(body));
            return None;
        }
        let d = (c as u32 - '0' as u32) as i64;
        let ghost k = i - start;
        assert(body.take(k + 1).drop_last() =~= body.take(k));
        assert(body.take(k + 1).last() == c);
        let m = v.checked_mul(10);
        let next = match m {
            Some(m) => if neg {
                m.checked_sub(d)
            } else {
                m.checked_add(d)
            },
            None => None,
        };
        match next {
            Some(x) => {
                v = x;
            },
            None => {
                proof {
                    if all_digits(body) {
                        lemma_digits_value_prefix(body, k + 1);
                        lemma_digits_value_prefix(body, k);
                        let pv = digits_value(body.take(k + 1));
                        assert(pv == digits_value(body.take(k)) * 10 + d);
                        assert(pv > i64::MAX);
                    }
                }
                return None;
            },
        }
        i += 1;
    }
    assert(body.take(n - start) =~= body);
    Some(v)
}

/// The tag ids stored in a `'|'`-joined column: the pieces between the separators that
/// parse as integers; empty and malformed pieces are skipped.
pub fn parse_ids(s: &str) -> (r: Vec<i64>)
    ensures
        r@ == ids_of_text(s@),
{
    let n = s.unicode_len();
    let mut out: Vec<i64> = Vec::new();
    let mut piece: Vec<char> = Vec::new();
    let mut i: usize = 0;
    while i < n
        invariant
            n == s@.len(),
            i <= n,
            split_on(s@.take(i as int), '|').len() >= 1,
            piece@ == split_on(s@.take(i as int), '|').last(),
            out@ == ids_of_pieces(split_on(s@.take(i as int), '|').drop_last()),
        decreases n - i,
    {
        let c = s.get_char(i);
        let ghost before = split_on(s@.take(i as int), '|');
        assert(s@.take(i + 1).drop_last() =~= s@.take(i as int));
        if c == '|' {
            if piece.len() > 0 {
                if let Some(v) = parse_i64(&piece) {
                    out.push(v);
                }
            }
            assert(split_on(s@.take(i + 1), '|').drop_last() =~= before);
            piece = Vec::new();
            assert(piece@ =~= Seq::<char>::empty());
        } else {
            piece.push(c);
            assert(split_on(s@.take(i + 1), '|').drop_last() =~= before.drop_last());
        }
        i += 1;
    }
    assert(s@.take(n as int) =~= s@);
    if piece.len() > 0 {
        if let Some(v) = parse_i64(&piece) {
            out.push(v);
        }
    }
    out
}

/// The column text of a transaction's tag ids: their decimal texts joined with `'|'`.
pub fn join_ids(ids: &Vec<i64>) -> (r: String)
    ensures
        r@ == ids_text(ids@),
{
    let mut out = String::new();
    let n = ids.len();
    let ghost texts = ids@.map_values(|v: i64| int_text(v as int));
    let mut i: usize = 0;
    while i < n
        invariant
            n == ids@.len(),
            i <= n,
            texts == ids@.map_values(|v: i64| int_text(v as int)),
            out@ == join_with(texts.take(i as int), '|'),
        decreases n - i,
    {
        let ghost before = out@;
        if i > 0 {
            proof {
                reveal_strlit("|");
            }
            out.append("|");
        }
        push_int(&mut out, ids[i]);
        proof {
            assert(texts.take(i + 1).drop_last() =~= texts.take(i as int));
            if i == 0 {
                assert(out@ =~= join_with(texts.take(1), '|'));
            } else {
                assert(out@ =~= join_with(texts.take(i + 1), '|'));
            }
        }
        i += 1;
    }
    assert(texts.take(n as int) =~= texts);
    out
}

proof fn lemma_digit_char_value(d: int)
    requires
        0 <= d < 10,
    ensures
        is_digit(digit_char(d)),
        digit_value(digit_char(d)) == d,
{
}

proof fn lemma_decimal_digits(m: nat)
    ensures
        decimal(m).len() > 0,
        all_digits(decimal(m)),
        digits_value(decimal(m)) == m,
    decreases m,
{
    if m < 10 {
        lemma_digit_char_value(m as int);
        assert(decimal(m).drop_last() =~= Seq::<char>::empty());
        assert(digits_value(Seq::<char>::empty()) == 0);
    } else {
        lemma_decimal_digits(m / 10);
        lemma_digit_char_value((m % 10) as int);
        assert(decimal(m).drop_last() =~= decimal(m / 10));
        assert(decimal(m).last() == digit_char((m % 10) as int));
        assert(digits_value(decimal(m)) == (m / 10) * 10 + m % 10);
        vstd::arithmetic::div_mod::lemma_fundamental_div_mod(m as int, 10);
    }
}

/// The decimal text of an integer parses back to it.
pub proof fn lemma_int_text_parses(n: i64)
    ensures
        parse_i64_text(int_text(n as int)) == Some(n),
        int_text(n as int).len() > 0,
        !int_text(n as int).contains('|'),
{
    if n < 0 {
        let m = (-n) as nat;
        lemma_decimal_digits(m);
        let s = int_text(n as int);
        assert(s.drop_first() =~= decimal(m));
        assert(!s.contains('|')) by {
            if s.contains('|') {
                let i = choose|i: int| 0 <= i < s.len() && s[i] == '|';
                if i > 0 {
                    assert(is_digit(decimal(m)[i - 1]));
                }
            }
        }
    } else {
        let m = n as nat;
        lemma_decimal_digits(m);
        let s = int_text(n as int);
        assert(is_digit(s[0]));
        assert(!s.contains('|')) by {
            if s.contains('|') {
                let i = choose|i: int| 0 <= i < s.len() && s[i] == '|';
                assert(is_digit(s[i]));
            }
        }
    }
}

proof fn lemma_split_append_plain(a: Seq<char>, b: Seq<char>, sep: char)
    requires
        !b.contains(sep),
    ensures
        split_on(a + b, sep) == split_on(a, sep).update(
            split_on(a, sep).len() - 1,
            split_on(a, sep).last() + b,
        ),
        split_on(a, sep).len() >= 1,
    decreases b.len(),
{
    lemma_split_nonempty(a, sep);
    if b.len() == 0 {
        assert(a + b =~= a);
        assert(split_on(a, sep).last() + b =~= split_on(a, sep).last());
        assert(split_on(a, sep).update(split_on(a, sep).len() - 1, split_on(a, sep).last())
            =~= split_on(a, sep));
    } else {
        let b0 = b.drop_last();
        assert(!b0.contains(sep)) by {
            if b0.contains(sep) {
                let i = choose|i: int| 0 <= i < b0.len() && b0[i] == sep;
                assert(b[i] == sep);
            }
        }
        lemma_split_append_plain(a, b0, sep);
        assert((a + b).drop_last() =~= a + b0);
        assert((a + b).last() == b.last());
        assert(b.last() != sep) by {
            assert(b[b.len() - 1] == b.last());
        }
        lemma_split_nonempty(a + b0, sep);
        assert((split_on(a, sep).last() + b0).push(b.last()) =~= split_on(a, sep).last() + b);
        assert(split_on(a + b, sep) =~= split_on(a, sep).update(
            split_on(a, sep).len() - 1,
            split_on(a, sep).last() + b,
        ));
    }
}

proof fn lemma_split_nonempty(a: Seq<char>, sep: char)
    ensures
        split_on(a, sep).len() >= 1,
    decreases a.len(),
{
    if a.len() > 0 {
        lemma_split_nonempty(a.drop_last(), sep);
    }
}

proof fn lemma_split_join(texts: Seq<Seq<char>>, sep: char)
    requires
        texts.len() >= 1,
        forall|i: int| 0 <= i < texts.len() ==> !(#[trigger] texts[i]).contains(sep),
    ensures
        split_on(join_with(texts, sep), sep) == texts,
    decreases texts.len(),
{
    if texts.len() == 1 {
        let e = Seq::<char>::empty();
        lemma_split_append_plain(e, texts[0], sep);
        assert(e + texts[0] =~= texts[0]);
        assert(e + texts[0] =~= texts[0]);
        assert(split_on(e, sep) =~= seq![e]);
        assert(seq![e].update(0, e + texts[0]) =~= texts);
    } else {
        let dl = texts.drop_last();
        assert forall|i: int| 0 <= i < dl.len() implies !(#[trigger] dl[i]).contains(sep) by {
            assert(dl[i] == texts[i]);
        }
        lemma_split_join(dl, sep);
        let x = join_with(dl, sep).push(sep);
        assert(x.drop_last() =~= join_with(dl, sep));
        assert(split_on(x, sep) == dl.push(Seq::<char>::empty()));
        assert(!texts.last().contains(sep)) by {
            assert(texts[texts.len() - 1] == texts.last());
        }
        lemma_split_append_plain(x, texts.last(), sep);
        assert(Seq::<char>::empty() + texts.last() =~= texts.last());
        assert(dl.push(Seq::<char>::empty()).update(dl.len() as int, texts.last()) =~= texts);
    }
}

proof fn lemma_ids_of_int_texts(ids: Seq<i64>)
    ensures
        ids_of_pieces(ids.map_values(|v: i64| int_text(v as int))) == ids,
    decreases ids.len(),
{
    if ids.len() > 0 {
        let dl = ids.drop_last();
        lemma_ids_of_int_texts(dl);
        assert(ids.map_values(|v: i64| int_text(v as int)).drop_last() =~= dl.map_values(
            |v: i64| int_text(v as int),
        ));
        lemma_int_text_parses(ids.last());
        assert(dl.push(ids.last()) =~= ids);
    }
}

/// Exporting a transaction's tag ids to the `'|'`-joined column and reading the column
/// back gives the same ids, in the same order.
pub proof fn lemma_ids_round_trip(ids: Seq<i64>)
    ensures
        ids_of_text(ids_text(ids)) == ids,
{
    let texts = ids.map_values(|v: i64| int_text(v as int));
    if ids.len() == 0 {
        assert(texts.len() == 0);
        assert(ids_text(ids) =~= Seq::<char>::empty());
        assert(split_on(Seq::<char>::empty(), '|') =~= seq![Seq::<char>::empty()]);
        assert(ids_of_pieces(seq![Seq::<char>::empty()]) =~= Seq::<i64>::empty()) by {
            assert(seq![Seq::<char>::empty()].drop_last() =~= Seq::<Seq<char>>::empty());
            assert(ids_of_pieces(Seq::<Seq<char>>::empty()) =~= Seq::<i64>::empty());
        }
        assert(ids =~= Seq::<i64>::empty());
    } else {
        assert forall|i: int| 0 <= i < texts.len() implies !(#[trigger] texts[i]).contains('|') by {
            lemma_int_text_parses(ids[i]);
        }
        lemma_split_join(texts, '|');
        lemma_ids_of_int_texts(ids);
    }
}

} // verus!
