//! How numbers, lists and measured times read.

use vstd::arithmetic::power::pow;
use vstd::prelude::*;

use crate::display::profile::{timing_of, NodeTiming};
use crate::display::throughput::{line_text, thousands, unit_of, Closing, Figures, Timing};
use crate::text::{digit, digits, joined, number};

verus! {

/// The number that a decimal digit stands for.
pub open spec fn digit_value(c: char) -> int {
    c as int - '0' as int
}

/// The number that a text of decimal digits stands for.
pub open spec fn decimal_value(text: Seq<char>) -> int
    decreases text.len(),
{
    if text.len() == 0 {
        0
    } else {
        10 * decimal_value(text.drop_last()) + digit_value(text.last())
    }
}

proof fn lemma_digit(n: int)
    requires
        0 <= n < 10,
    ensures
        digit(n).len() == 1,
        '0' <= digit(n)[0] && digit(n)[0] <= '9',
        digit_value(digit(n)[0]) == n,
{
    reveal_strlit("0");
    reveal_strlit("1");
    reveal_strlit("2");
    reveal_strlit("3");
    reveal_strlit("4");
    reveal_strlit("5");
    reveal_strlit("6");
    reveal_strlit("7");
    reveal_strlit("8");
    reveal_strlit("9");
}

/// The digits of a number read back as the number. There is at least one, all are decimal digits, and
/// the first is zero only for zero itself.
pub proof fn law_digits_read_back(n: nat)
    ensures
        decimal_value(digits(n)) == n,
        digits(n).len() > 0,
        forall|i: int| 0 <= i < digits(n).len() ==> '0' <= #[trigger] digits(n)[i] && digits(n)[i]
            <= '9',
        digits(n)[0] == '0' <==> n == 0,
    decreases n,
{
    let text = digits(n);
    if n < 10 {
        lemma_digit(n as int);
        assert(text.drop_last() =~= Seq::empty());
        assert(decimal_value(text.drop_last()) == 0);
    } else {
        law_digits_read_back(n / 10);
        lemma_digit((n % 10) as int);
        let before = digits(n / 10);
        assert(text.drop_last() =~= before);
        assert(text.last() == digit((n % 10) as int)[0]);
        assert(text[0] == before[0]);
        assert forall|i: int| 0 <= i < text.len() implies '0' <= #[trigger] text[i] && text[i]
            <= '9' by {
            if i < before.len() {
                assert(text[i] == before[i]);
            }
        }
    }
}

/// A negative number is a minus sign and the digits of its opposite, and no other number starts with
/// one. Different numbers read differently.
pub proof fn law_numbers_read_back(n: int, m: int)
    ensures
        n >= 0 ==> decimal_value(number(n)) == n,
        n < 0 ==> number(n) == seq!['-'] + number(-n),
        number(n)[0] == '-' <==> n < 0,
        number(n) == number(m) ==> n == m,
{
    reveal_strlit("-");
    assert("-"@ =~= seq!['-']);
    let a = if n < 0 {
        (-n) as nat
    } else {
        n as nat
    };
    let b = if m < 0 {
        (-m) as nat
    } else {
        m as nat
    };
    law_digits_read_back(a);
    law_digits_read_back(b);
    assert(digits(a)[0] != '-' && digits(b)[0] != '-');
    if number(n) == number(m) && n < 0 && m < 0 {
        assert(number(n).skip(1) =~= digits(a));
        assert(number(m).skip(1) =~= digits(b));
    }
}

/// Joining two lists one behind the other is joining each, with the separator between them. One text
/// is joined as it is, and no text as nothing.
pub proof fn law_joined(first: Seq<Seq<char>>, second: Seq<Seq<char>>, separator: Seq<char>)
    requires
        first.len() > 0,
        second.len() > 0,
    ensures
        joined(first + second, separator) == joined(first, separator) + separator + joined(
            second,
            separator,
        ),
        joined(seq![first[0]], separator) == first[0],
        joined(Seq::empty(), separator) == Seq::<char>::empty(),
    decreases second.len(),
{
    let all = first + second;
    let rest = second.drop_last();
    assert(all.last() == second.last());
    assert(all.drop_last() =~= first + rest);
    if second.len() == 1 {
        assert(first + rest =~= first);
    } else {
        law_joined(first, rest, separator);
        assert(joined(all, separator) =~= joined(first, separator) + separator + joined(
            second,
            separator,
        ));
    }
}

/// The unit of a duration is a power of a thousand nanoseconds, up to a second. Counted in it, a
/// duration is at least one, unless the unit is the nanosecond, and less than a thousand, unless it is
/// the second.
pub proof fn law_units_of_time(nanos: u64)
    ensures
        ({
            let (size, name) = unit_of(nanos);
            &&& size == 1 || size == 1_000 || size == 1_000_000 || size == 1_000_000_000
            &&& size > 1 ==> nanos >= size
            &&& size < 1_000_000_000 ==> nanos < 1000 * size
            &&& size == 1 ==> name == seq!['n', 's']
            &&& size == 1_000 ==> name == seq!['\u{b5}', 's']
            &&& size == 1_000_000 ==> name == seq!['m', 's']
            &&& size == 1_000_000_000 ==> name == seq!['s']
        }),
{
    reveal_strlit("ns");
    reveal_strlit("\u{b5}s");
    reveal_strlit("ms");
    reveal_strlit("s");
    assert("ns"@ =~= seq!['n', 's']);
    assert("\u{b5}s"@ =~= seq!['\u{b5}', 's']);
    assert("ms"@ =~= seq!['m', 's']);
    assert("s"@ =~= seq!['s']);
}

/// What a node takes by itself and its children take together is what its subtree takes. Where the
/// children alone take longer, the node saves the difference.
pub proof fn law_closing_times(timing: Timing)
    ensures
        match timing.spec_closing() {
            Closing::Fused(saved) => saved > 0 && timing.node.subtree + saved
                == timing.node.children,
            Closing::Itself(own) => timing.node.children + own == timing.node.subtree,
        },
{
}

/// What was measured of a node is what the first entry with its number says, and nothing exactly if
/// there is no such entry.
pub proof fn law_first_entry_counts(timings: Seq<(u64, NodeTiming)>, node: u64)
    ensures
        match timing_of(timings, node) {
            Some(timing) => exists|i: int|
                {
                    &&& 0 <= i < timings.len()
                    &&& #[trigger] timings[i] == (node, timing)
                    &&& forall|k: int| 0 <= k < i ==> (#[trigger] timings[k]).0 != node
                },
            None => forall|i: int| 0 <= i < timings.len() ==> (#[trigger] timings[i]).0 != node,
        },
    decreases timings.len(),
{
    if timings.len() > 0 {
        if timings[0].0 == node {
            assert(timings[0] == (node, timings[0].1));
        } else {
            let rest = timings.skip(1);
            law_first_entry_counts(rest, node);
            match timing_of(timings, node) {
                Some(timing) => {
                    let i = choose|i: int|
                        {
                            &&& 0 <= i < rest.len()
                            &&& #[trigger] rest[i] == (node, timing)
                            &&& forall|k: int| 0 <= k < i ==> (#[trigger] rest[k]).0 != node
                        };
                    assert(timings[i + 1] == (node, timing));
                    assert forall|k: int| 0 <= k < i + 1 implies (#[trigger] timings[k]).0
                        != node by {
                        if k > 0 {
                            assert(rest[k - 1] == timings[k]);
                        }
                    }
                },
                None => {
                    assert forall|i: int| 0 <= i < timings.len() implies (#[trigger] timings[i]).0
                        != node by {
                        if i > 0 {
                            assert(rest[i - 1] == timings[i]);
                        }
                    }
                },
            }
        }
    }
}

/// The units of a rate are the powers of a thousand.
pub proof fn law_thousands(n: nat)
    ensures
        thousands(n) == pow(1000, n),
    decreases n,
{
    reveal(pow);
    if n > 0 {
        law_thousands((n - 1) as nat);
    }
}

/// The line on a node is made of an indentation, a heading, five parts with a bar between them, and a
/// line break: the time and its share, the two rates in bytes, the rate in rows, and what the node
/// saves or takes by itself.
pub proof fn law_lines(indent: Seq<char>, closing: Closing, figures: Figures)
    ensures
        ({
            let time = figures.elapsed@ + " ("@ + figures.percent@ + "%)"@;
            let end = match closing {
                Closing::Fused(_) => "fuses children (saves "@ + figures.closing@ + ")"@,
                Closing::Itself(_) => "self "@ + figures.closing@,
            };
            let parts = seq![
                time,
                "in "@ + figures.input@,
                "out "@ + figures.output@,
                figures.rows@,
                end,
            ];
            line_text(indent, closing, figures) == indent + "throughput: "@ + joined(
                parts,
                " | "@,
            ) + seq!['\n']
        }),
{
    reveal_strlit(" (");
    reveal_strlit("%)");
    reveal_strlit("%) | in ");
    reveal_strlit("in ");
    reveal_strlit(" | out ");
    reveal_strlit("out ");
    reveal_strlit(" | ");
    reveal_strlit("fuses children (saves ");
    reveal_strlit(" | fuses children (saves ");
    reveal_strlit("self ");
    reveal_strlit(" | self ");
    reveal_strlit("\n");
    assert("%) | in "@ =~= "%)"@ + " | "@ + "in "@);
    assert(" | out "@ =~= " | "@ + "out "@);
    assert(" | fuses children (saves "@ =~= " | "@ + "fuses children (saves "@);
    assert(" | self "@ =~= " | "@ + "self "@);
    assert("\n"@ =~= seq!['\n']);
    let time = figures.elapsed@ + " ("@ + figures.percent@ + "%)"@;
    let end = match closing {
        Closing::Fused(_) => "fuses children (saves "@ + figures.closing@ + ")"@,
        Closing::Itself(_) => "self "@ + figures.closing@,
    };
    let a = "in "@ + figures.input@;
    let b = "out "@ + figures.output@;
    let parts = seq![time, a, b, figures.rows@, end];
    reveal_with_fuel(joined, 5);
    assert(parts.drop_last() =~= seq![time, a, b, figures.rows@]);
    assert(parts.drop_last().drop_last() =~= seq![time, a, b]);
    assert(parts.drop_last().drop_last().drop_last() =~= seq![time, a]);
    assert(parts.drop_last().drop_last().drop_last().drop_last() =~= seq![time]);
    let bar = " | "@;
    let whole = time + bar + a + bar + b + bar + figures.rows@ + bar + end;
    assert(joined(parts, bar) =~= whole);
    assert(line_text(indent, closing, figures) =~= indent + "throughput: "@ + whole + seq!['\n']);
}

} // verus!
