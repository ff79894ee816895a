//! Formatting a text that is formatted changes nothing.

use crate::text::{
    ascii_upper, capitalized, collapsed, formatted, has_period_before_mark, has_trailing_period,
    is_closing_mark, is_decimal_digit, is_white_space,
    lemma_decimal_digit_facts, lemma_trimmed_start_len, lemma_without_trailing_periods, settled,
    straight_quote, straightened, tightened, trimmed, trimmed_end, trimmed_start, unit_spaced,
    without_trailing_periods,
};
use vstd::prelude::*;

verus! {

/// Whether the text neither starts nor ends with white space.
pub open spec fn is_trim(x: Seq<char>) -> bool {
    x.len() == 0 || (!is_white_space(x[0]) && !is_white_space(x.last()))
}

/// Whether no two white-space characters stand side by side.
pub open spec fn has_no_space_run(x: Seq<char>) -> bool {
    forall|i: int|
        0 <= i < x.len() - 1 ==> !(is_white_space(#[trigger] x[i]) && is_white_space(x[i + 1]))
}

/// Whether no white space stands before a closing mark at the end.
pub open spec fn is_tight(x: Seq<char>) -> bool {
    !(x.len() >= 2 && is_white_space(x[x.len() - 2]) && is_closing_mark(x.last()))
}

/// Whether the text holds no curly double quote.
pub open spec fn has_straight_quotes(x: Seq<char>) -> bool {
    forall|i: int| 0 <= i < x.len() ==> straight_quote(#[trigger] x[i]) == x[i]
}

/// Whether no percent sign follows a digit directly.
pub open spec fn has_spaced_units(x: Seq<char>) -> bool {
    forall|i: int| 0 <= i < x.len() - 1 ==> !(is_decimal_digit(#[trigger] x[i]) && x[i + 1] == '%')
}

/// Whether the text has reached everything that formatting does before it
/// looks for a period before the terminal mark.
pub open spec fn is_shaped(x: Seq<char>) -> bool {
    &&& is_trim(x)
    &&& has_no_space_run(x)
    &&& is_tight(x)
    &&& has_straight_quotes(x)
    &&& has_spaced_units(x)
}

/// Whether the text is in normal form.
pub open spec fn is_formatted(x: Seq<char>) -> bool {
    &&& is_shaped(x)
    &&& !has_period_before_mark(x)
}

/// What trimming at the start leaves is the end of the text, and it does not
/// start with white space. Where nothing is left, the text was white space
/// throughout.
pub proof fn lemma_trimmed_start(x: Seq<char>)
    ensures
        trimmed_start(x).len() <= x.len(),
        trimmed_start(x) == x.skip(x.len() - trimmed_start(x).len()),
        trimmed_start(x).len() > 0 ==> !is_white_space(trimmed_start(x)[0]),
        forall|i: int|
            0 <= i < x.len() - trimmed_start(x).len() ==> is_white_space(#[trigger] x[i]),
    decreases x.len(),
{
    if x.len() > 0 && is_white_space(x[0]) {
        let rest = x.drop_first();
        lemma_trimmed_start(rest);
        let left = trimmed_start(rest);
        assert(rest.skip(rest.len() - left.len()) =~= x.skip(x.len() - left.len()));
        assert forall|i: int| 0 <= i < x.len() - left.len() implies is_white_space(
            #[trigger] x[i],
        ) by {
            if i > 0 {
                assert(rest[i - 1] == x[i]);
            }
        }
    } else {
        assert(x.skip(0) =~= x);
    }
}

/// What trimming at the end leaves is the start of the text, and it does not
/// end with white space.
pub proof fn lemma_trimmed_end(x: Seq<char>)
    ensures
        trimmed_end(x).len() <= x.len(),
        trimmed_end(x) == x.take(trimmed_end(x).len() as int),
        trimmed_end(x).len() > 0 ==> !is_white_space(trimmed_end(x).last()),
    decreases x.len(),
{
    if x.len() > 0 && is_white_space(x.last()) {
        let rest = x.drop_last();
        lemma_trimmed_end(rest);
        let left = trimmed_end(rest);
        assert(rest.take(left.len() as int) =~= x.take(left.len() as int));
    } else {
        assert(x.take(x.len() as int) =~= x);
    }
}

/// A trimmed text neither starts nor ends with white space, and trimming
/// leaves such a text as it is.
pub proof fn lemma_trimmed(x: Seq<char>)
    ensures
        is_trim(trimmed(x)),
        is_trim(x) ==> trimmed(x) == x,
        trimmed(trimmed(x)) == trimmed(x),
{
    lemma_trimmed_start(x);
    let s = trimmed_start(x);
    lemma_trimmed_end(s);
    let e = trimmed_end(s);
    if e.len() > 0 {
        assert(e[0] == s[0]);
    }
    lemma_trimmed_start(e);
    lemma_trimmed_end(trimmed_start(e));
}

/// A collapsed text is empty where the text is, and starts and ends with
/// white space where the text does.
pub proof fn lemma_collapsed_ends(x: Seq<char>)
    ensures
        collapsed(x).len() == 0 <==> x.len() == 0,
        x.len() > 0 ==> is_white_space(collapsed(x)[0]) == is_white_space(x[0]),
        x.len() > 0 ==> is_white_space(collapsed(x).last()) == is_white_space(x.last()),
    decreases x.len(),
{
    if x.len() == 0 {
    } else if x.len() >= 2 && is_white_space(x[0]) && is_white_space(x[1]) {
        let rest = trimmed_start(x);
        lemma_trimmed_start_len(x);
        lemma_trimmed_start(x);
        lemma_collapsed_ends(rest);
        if rest.len() == 0 {
            assert(is_white_space(x[x.len() - 1]));
        } else {
            assert(rest.last() == x.last());
        }
    } else {
        lemma_collapsed_ends(x.drop_first());
        if x.len() > 1 {
            assert(x.drop_first().last() == x.last());
        }
    }
}

/// In a collapsed text no two white-space characters stand side by side.
pub proof fn lemma_collapsed_has_no_run(x: Seq<char>)
    ensures
        has_no_space_run(collapsed(x)),
    decreases x.len(),
{
    if x.len() == 0 {
    } else if x.len() >= 2 && is_white_space(x[0]) && is_white_space(x[1]) {
        let rest = trimmed_start(x);
        lemma_trimmed_start_len(x);
        lemma_trimmed_start(x);
        lemma_collapsed_has_no_run(rest);
        lemma_collapsed_ends(rest);
        let tail = collapsed(rest);
        let all = collapsed(x);
        assert forall|i: int| 0 <= i < all.len() - 1 implies !(is_white_space(
            #[trigger] all[i],
        ) && is_white_space(all[i + 1])) by {
            if i > 0 {
                assert(all[i] == tail[i - 1]);
                assert(all[i + 1] == tail[i]);
            } else {
                assert(all[1] == tail[0]);
            }
        }
    } else {
        let rest = x.drop_first();
        lemma_collapsed_has_no_run(rest);
        lemma_collapsed_ends(rest);
        let tail = collapsed(rest);
        let all = collapsed(x);
        assert forall|i: int| 0 <= i < all.len() - 1 implies !(is_white_space(
            #[trigger] all[i],
        ) && is_white_space(all[i + 1])) by {
            if i > 0 {
                assert(all[i] == tail[i - 1]);
                assert(all[i + 1] == tail[i]);
            } else {
                assert(all[1] == tail[0]);
                assert(rest[0] == x[1]);
            }
        }
    }
}

/// Collapsing leaves a text without runs of white space as it is.
pub proof fn lemma_collapsed_stays(x: Seq<char>)
    requires
        has_no_space_run(x),
    ensures
        collapsed(x) == x,
    decreases x.len(),
{
    if x.len() > 0 {
        assert(!(is_white_space(x[0]) && x.len() >= 2 && is_white_space(x[1]))) by {
            if x.len() >= 2 {
                assert(!(is_white_space(x[0int]) && is_white_space(x[0int + 1])));
            }
        }
        let rest = x.drop_first();
        assert(has_no_space_run(rest)) by {
            assert forall|i: int| 0 <= i < rest.len() - 1 implies !(is_white_space(
                #[trigger] rest[i],
            ) && is_white_space(rest[i + 1])) by {
                assert(rest[i] == x[i + 1]);
                assert(rest[i + 1] == x[i + 1 + 1]);
                assert(!(is_white_space(x[i + 1]) && is_white_space(x[i + 1 + 1])));
            }
        }
        lemma_collapsed_stays(rest);
        assert(seq![x[0]] + rest =~= x);
    }
}

/// Tightening keeps a text trimmed and free of runs, and makes it tight.
pub proof fn lemma_tightened(x: Seq<char>)
    requires
        is_trim(x),
        has_no_space_run(x),
    ensures
        is_trim(tightened(x)),
        has_no_space_run(tightened(x)),
        is_tight(tightened(x)),
{
    let t = tightened(x);
    if x.len() >= 2 && is_white_space(x[x.len() - 2]) && is_closing_mark(x.last()) {
        let n = x.len() as int;
        assert(n >= 3);
        assert(!(is_white_space(x[n - 3]) && is_white_space(x[n - 3 + 1])));
        assert(t.len() == n - 1);
        assert(t[0] == x[0]);
        assert(t[n - 2] == x[n - 1]);
        assert(t[n - 3] == x[n - 3]);
        assert forall|i: int| 0 <= i < t.len() - 1 implies !(is_white_space(#[trigger] t[i])
            && is_white_space(t[i + 1])) by {
            if i < n - 3 {
                assert(t[i] == x[i]);
                assert(t[i + 1] == x[i + 1]);
                assert(!(is_white_space(x[i]) && is_white_space(x[i + 1])));
            } else {
                assert(t[i + 1] == x[n - 1]);
            }
        }
    }
}

/// Straightening the quotes keeps what formatting has reached and leaves no
/// curly quote.
pub proof fn lemma_straightened(x: Seq<char>)
    requires
        is_trim(x),
        has_no_space_run(x),
        is_tight(x),
    ensures
        is_trim(straightened(x)),
        has_no_space_run(straightened(x)),
        is_tight(straightened(x)),
        has_straight_quotes(straightened(x)),
{
    let t = straightened(x);
    assert forall|i: int| 0 <= i < t.len() implies is_white_space(#[trigger] t[i])
        == is_white_space(x[i]) && is_closing_mark(t[i]) == is_closing_mark(x[i])
        && straight_quote(t[i]) == t[i] by {
        assert(t[i] == straight_quote(x[i]));
    }
    assert forall|i: int| 0 <= i < t.len() - 1 implies !(is_white_space(#[trigger] t[i])
        && is_white_space(t[i + 1])) by {
        assert(is_white_space(t[i + 1]) == is_white_space(x[i + 1]));
        assert(!(is_white_space(x[i]) && is_white_space(x[i + 1])));
    }
    if t.len() >= 2 {
        assert(is_white_space(t[t.len() - 2]) == is_white_space(x[x.len() - 2]));
        assert(is_closing_mark(t[t.len() - 1]) == is_closing_mark(x[x.len() - 1]));
    }
    if t.len() > 0 {
        assert(is_white_space(t[0]) == is_white_space(x[0]));
        assert(is_white_space(t[t.len() - 1]) == is_white_space(x[x.len() - 1]));
    }
}

/// Straightening leaves a text without curly quotes as it is.
pub proof fn lemma_straightened_stays(x: Seq<char>)
    requires
        has_straight_quotes(x),
    ensures
        straightened(x) == x,
{
    assert(straightened(x) =~= x);
}

/// What holds of a text between its characters holds of each of its ends.
pub proof fn lemma_suffix_keeps(x: Seq<char>, k: int)
    requires
        0 <= k <= x.len(),
    ensures
        has_no_space_run(x) ==> has_no_space_run(x.skip(k)),
        has_straight_quotes(x) ==> has_straight_quotes(x.skip(k)),
        has_spaced_units(x) ==> has_spaced_units(x.skip(k)),
{
    let y = x.skip(k);
    if has_no_space_run(x) {
        assert forall|i: int| 0 <= i < y.len() - 1 implies !(is_white_space(#[trigger] y[i])
            && is_white_space(y[i + 1])) by {
            assert(y[i] == x[i + k]);
            assert(y[i + 1] == x[i + k + 1]);
            assert(!(is_white_space(x[i + k]) && is_white_space(x[i + k + 1])));
        }
    }
    if has_straight_quotes(x) {
        assert forall|i: int| 0 <= i < y.len() implies straight_quote(#[trigger] y[i]) == y[i] by {
            assert(y[i] == x[i + k]);
            assert(straight_quote(x[i + k]) == x[i + k]);
        }
    }
    if has_spaced_units(x) {
        assert forall|i: int| 0 <= i < y.len() - 1 implies !(is_decimal_digit(#[trigger] y[i])
            && y[i + 1] == '%') by {
            assert(y[i] == x[i + k]);
            assert(y[i + 1] == x[i + k + 1]);
            assert(!(is_decimal_digit(x[i + k]) && x[i + k + 1] == '%'));
        }
    }
}

/// Spacing the units keeps the first and the last character of a text, and
/// the one before the last unless the text ends with a percent sign.
pub proof fn lemma_unit_spaced_ends(x: Seq<char>)
    ensures
        unit_spaced(x).len() >= x.len(),
        x.len() > 0 ==> unit_spaced(x)[0] == x[0] && unit_spaced(x).last() == x.last(),
        x.len() >= 2 && x.last() != '%' ==> unit_spaced(x)[unit_spaced(x).len() - 2] == x[x.len()
            - 2],
        x.len() <= 1 ==> unit_spaced(x) == x,
    decreases x.len(),
{
    if x.len() == 0 {
    } else if x.len() >= 2 && is_decimal_digit(x[0]) && x[1] == '%' {
        let rest = x.skip(2);
        lemma_unit_spaced_ends(rest);
        let tail = unit_spaced(rest);
        let all = unit_spaced(x);
        assert(all =~= seq![x[0], ' ', '%'] + tail);
        if rest.len() > 0 {
            assert(rest.last() == x.last());
            assert(all.last() == tail.last());
            if rest.len() >= 2 {
                assert(rest[rest.len() - 2] == x[x.len() - 2]);
                assert(all[all.len() - 2] == tail[tail.len() - 2]);
            } else {
                assert(all[all.len() - 2] == '%');
            }
        }
    } else {
        let rest = x.drop_first();
        lemma_unit_spaced_ends(rest);
        let tail = unit_spaced(rest);
        let all = unit_spaced(x);
        assert(all =~= seq![x[0]] + tail);
        if rest.len() > 0 {
            assert(rest.last() == x.last());
            assert(all.last() == tail.last());
            if rest.len() >= 2 {
                assert(rest[rest.len() - 2] == x[x.len() - 2]);
                assert(all[all.len() - 2] == tail[tail.len() - 2]);
            } else {
                assert(all[all.len() - 2] == x[0]);
            }
        } else {
            assert(all =~= x);
        }
    }
}

/// Spacing the units leaves no percent sign directly behind a digit, keeps a
/// text free of runs of white space and of curly quotes, and leaves a text
/// with spaced units as it is.
pub proof fn lemma_unit_spaced(x: Seq<char>)
    ensures
        has_spaced_units(unit_spaced(x)),
        has_no_space_run(x) ==> has_no_space_run(unit_spaced(x)),
        has_straight_quotes(x) ==> has_straight_quotes(unit_spaced(x)),
        has_spaced_units(x) ==> unit_spaced(x) == x,
    decreases x.len(),
{
    if x.len() == 0 {
    } else if x.len() >= 2 && is_decimal_digit(x[0]) && x[1] == '%' {
        let rest = x.skip(2);
        lemma_unit_spaced(rest);
        lemma_unit_spaced_ends(rest);
        lemma_suffix_keeps(x, 2);
        lemma_decimal_digit_facts(x[0]);
        lemma_decimal_digit_facts(' ');
        lemma_decimal_digit_facts('%');
        let tail = unit_spaced(rest);
        let all = unit_spaced(x);
        assert(all =~= seq![x[0], ' ', '%'] + tail);
        assert forall|i: int| 0 <= i < all.len() - 1 implies !(is_decimal_digit(
            #[trigger] all[i],
        ) && all[i + 1] == '%') by {
            if i >= 3 {
                assert(all[i] == tail[i - 3]);
                assert(all[i + 1] == tail[i - 3 + 1]);
                assert(!(is_decimal_digit(tail[i - 3]) && tail[i - 3 + 1] == '%'));
            }
        }
        if has_no_space_run(x) {
            assert forall|i: int| 0 <= i < all.len() - 1 implies !(is_white_space(
                #[trigger] all[i],
            ) && is_white_space(all[i + 1])) by {
                if i >= 3 {
                    assert(all[i] == tail[i - 3]);
                    assert(all[i + 1] == tail[i - 3 + 1]);
                    assert(!(is_white_space(tail[i - 3]) && is_white_space(tail[i - 3 + 1])));
                }
            }
        }
        if has_straight_quotes(x) {
            assert(straight_quote(x[0]) == x[0]);
            assert forall|i: int| 0 <= i < all.len() implies straight_quote(#[trigger] all[i])
                == all[i] by {
                if i >= 3 {
                    assert(all[i] == tail[i - 3]);
                    assert(straight_quote(tail[i - 3]) == tail[i - 3]);
                }
            }
        }
        if has_spaced_units(x) {
            assert(!(is_decimal_digit(x[0int]) && x[0int + 1] == '%'));
        }
    } else {
        let rest = x.drop_first();
        assert(rest == x.skip(1));
        lemma_unit_spaced(rest);
        lemma_unit_spaced_ends(rest);
        lemma_suffix_keeps(x, 1);
        let tail = unit_spaced(rest);
        let all = unit_spaced(x);
        assert(all =~= seq![x[0]] + tail);
        if rest.len() > 0 {
            assert(tail[0] == x[1]);
        }
        assert forall|i: int| 0 <= i < all.len() - 1 implies !(is_decimal_digit(
            #[trigger] all[i],
        ) && all[i + 1] == '%') by {
            if i >= 1 {
                assert(all[i] == tail[i - 1]);
                assert(all[i + 1] == tail[i - 1 + 1]);
                assert(!(is_decimal_digit(tail[i - 1]) && tail[i - 1 + 1] == '%'));
            } else {
                assert(all[1] == x[1]);
            }
        }
        if has_no_space_run(x) {
            assert forall|i: int| 0 <= i < all.len() - 1 implies !(is_white_space(
                #[trigger] all[i],
            ) && is_white_space(all[i + 1])) by {
                if i >= 1 {
                    assert(all[i] == tail[i - 1]);
                    assert(all[i + 1] == tail[i - 1 + 1]);
                    assert(!(is_white_space(tail[i - 1]) && is_white_space(tail[i - 1 + 1])));
                } else {
                    assert(all[1] == x[1]);
                    assert(!(is_white_space(x[0int]) && is_white_space(x[0int + 1])));
                }
            }
        }
        if has_straight_quotes(x) {
            assert(straight_quote(x[0]) == x[0]);
            assert forall|i: int| 0 <= i < all.len() implies straight_quote(#[trigger] all[i])
                == all[i] by {
                if i >= 1 {
                    assert(all[i] == tail[i - 1]);
                    assert(straight_quote(tail[i - 1]) == tail[i - 1]);
                }
            }
        }
        if has_spaced_units(x) {
            assert(seq![x[0]] + rest =~= x);
        }
    }
}

/// A formatted text is in normal form.
pub proof fn lemma_formatted_is_formatted(s: Seq<char>)
    ensures
        is_formatted(formatted(s)),
{
    let t0 = trimmed(s);
    lemma_trimmed(s);
    let t1 = collapsed(t0);
    lemma_collapsed_ends(t0);
    lemma_collapsed_has_no_run(t0);
    let t2 = tightened(t1);
    lemma_tightened(t1);
    let t3 = straightened(t2);
    lemma_straightened(t2);
    let t4 = unit_spaced(t3);
    lemma_unit_spaced(t3);
    lemma_unit_spaced_ends(t3);
    if t4.len() >= 2 && is_closing_mark(t4.last()) {
        assert(t3.len() >= 1);
        if t3.len() == 1 {
            assert(t4 =~= seq![t3[0]]);
        }
    }
    lemma_settled(t4);
}

/// Formatting leaves a text in normal form as it is.
pub proof fn lemma_formatted_stays(x: Seq<char>)
    requires
        is_formatted(x),
    ensures
        formatted(x) == x,
{
    lemma_trimmed(x);
    lemma_collapsed_stays(x);
    lemma_straightened_stays(x);
    lemma_unit_spaced(x);
}

/// Formatting a text twice gives what formatting it once gives.
pub proof fn lemma_formatted_settles(s: Seq<char>)
    ensures
        formatted(formatted(s)) == formatted(s),
{
    lemma_formatted_is_formatted(s);
    lemma_formatted_stays(formatted(s));
}

/// Whether a period trails a text does not depend on a first character that
/// is neither a period nor white space.
pub proof fn lemma_trailing_period_keeps(x: Seq<char>, c: char)
    requires
        x.len() > 0,
        x[0] != '.' && !is_white_space(x[0]),
        c != '.' && !is_white_space(c),
    ensures
        has_trailing_period(x.update(0, c)) == has_trailing_period(x),
    decreases x.len(),
{
    let y = x.update(0, c);
    if x.len() > 1 {
        assert(y.last() == x.last());
        assert(y.drop_last() =~= x.drop_last().update(0, c));
        lemma_trailing_period_keeps(x.drop_last(), c);
    } else {
        assert(!has_trailing_period(x.drop_last()));
        assert(!has_trailing_period(y.drop_last()));
    }
}

/// Dropping the periods before the terminal mark keeps what formatting has
/// reached and leaves no such period.
pub proof fn lemma_settled(x: Seq<char>)
    requires
        is_shaped(x),
    ensures
        is_formatted(settled(x)),
{
    if has_period_before_mark(x) {
        let start = x.drop_last();
        let kept = without_trailing_periods(start);
        let mark = x.last();
        let r = kept.push(mark);
        lemma_without_trailing_periods(start);
        let k = kept.len() as int;
        assert forall|i: int| 0 <= i < k implies #[trigger] r[i] == x[i] by {
            assert(kept[i] == start.take(k)[i]);
        }
        if k > 0 {
            assert(kept.last() == r[k - 1]);
        }
        assert forall|i: int| 0 <= i < r.len() - 1 implies !(is_white_space(#[trigger] r[i])
            && is_white_space(r[i + 1])) by {
            if i < k - 1 {
                assert(r[i + 1] == x[i + 1]);
                assert(!(is_white_space(x[i]) && is_white_space(x[i + 1])));
            }
        }
        assert forall|i: int| 0 <= i < r.len() implies straight_quote(#[trigger] r[i]) == r[i] by {
            if i < k {
                assert(straight_quote(x[i]) == x[i]);
            } else {
                assert(straight_quote(x[x.len() - 1]) == x[x.len() - 1]);
            }
        }
        assert forall|i: int| 0 <= i < r.len() - 1 implies !(is_decimal_digit(#[trigger] r[i])
            && r[i + 1] == '%') by {
            if i < k - 1 {
                assert(r[i + 1] == x[i + 1]);
                assert(!(is_decimal_digit(x[i]) && x[i + 1] == '%'));
            }
        }
        assert(r.drop_last() =~= kept);
    }
}

/// Capitalizing keeps a text in normal form and its last character a period,
/// and capitalizing twice gives what capitalizing once gives.
pub proof fn lemma_capitalized(x: Seq<char>)
    ensures
        is_formatted(x) ==> is_formatted(capitalized(x)),
        capitalized(capitalized(x)) == capitalized(x),
        x.len() > 0 ==> (capitalized(x).last() == '.' <==> x.last() == '.'),
        capitalized(x).len() == x.len(),
{
    let y = capitalized(x);
    if x.len() > 0 {
        let c = ascii_upper(x[0]);
        lemma_decimal_digit_facts(c);
        assert(ascii_upper(c) == c);
        assert(y =~= x.update(0, c));
        assert(capitalized(y) =~= y);
        if is_formatted(x) {
            assert forall|i: int| 0 <= i < y.len() - 1 implies !(is_white_space(#[trigger] y[i])
                && is_white_space(y[i + 1])) by {
                assert(!(is_white_space(x[i]) && is_white_space(x[i + 1])));
            }
            assert forall|i: int| 0 <= i < y.len() implies straight_quote(#[trigger] y[i])
                == y[i] by {
                assert(straight_quote(x[i]) == x[i]);
            }
            assert forall|i: int| 0 <= i < y.len() - 1 implies !(is_decimal_digit(
                #[trigger] y[i],
            ) && y[i + 1] == '%') by {
                assert(!(is_decimal_digit(x[i]) && x[i + 1] == '%'));
            }
            if x.len() >= 2 {
                assert(y.last() == x.last());
                assert(y.drop_last() =~= x.drop_last().update(0, c));
                if x[0] != c {
                    lemma_trailing_period_keeps(x.drop_last(), c);
                } else {
                    assert(y =~= x);
                }
            }
        }
    }
}

} // verus!
