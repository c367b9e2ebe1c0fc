//! Lists of findings: the texts that the checks collect, in the order in which
//! they are found, and the ordered list without repetitions that is reported.

use vstd::prelude::*;

use crate::text;

verus! {

/// The findings that an optional fault amounts to: none or one.
pub open spec fn listed(fault: Option<Seq<char>>) -> Seq<Seq<char>> {
    match fault {
        Some(message) => seq![message],
        None => seq![],
    }
}

/// The fault that a verdict carries, if any.
pub open spec fn fault(verdict: Result<(), String>) -> Option<Seq<char>> {
    match verdict {
        Ok(_) => None,
        Err(message) => Some(message@),
    }
}

/// The findings of every item, one item after the other.
pub open spec fn each<T>(items: Seq<T>, findings: spec_fn(T) -> Seq<Seq<char>>) -> Seq<Seq<char>>
    decreases items.len(),
{
    if items.len() == 0 {
        seq![]
    } else {
        each(items.drop_last(), findings) + findings(items.last())
    }
}

/// The list of findings once a rule has handed it back with its verdict.
pub open spec fn outcome(out: (Vec<String>, Result<(), String>)) -> Seq<Seq<char>> {
    out.0.deep_view() + listed(fault(out.1))
}

/// Whether `rule`, called on `item` with the findings `before`, can lead to the
/// findings `after`.
pub open spec fn leads_to<T, F: Fn(&T, Vec<String>) -> (Vec<String>, Result<(), String>)>(
    rule: F,
    item: T,
    before: Seq<Seq<char>>,
    after: Seq<Seq<char>>,
) -> bool {
    exists|errors: Vec<String>, out: (Vec<String>, Result<(), String>)| #[trigger]
        call_ensures(rule, (&item, errors), out) && errors.deep_view() == before && after
            == outcome(out)
}

/// Whether `trace` holds the findings before the first item and after each one, as
/// `rule` is called on the items in turn.
pub open spec fn is_trace<T, F: Fn(&T, Vec<String>) -> (Vec<String>, Result<(), String>)>(
    rule: F,
    items: Seq<T>,
    trace: Seq<Seq<Seq<char>>>,
) -> bool {
    &&& trace.len() == items.len() + 1
    &&& forall|i: int|
        #![trigger items[i]]
        0 <= i < items.len() ==> leads_to(rule, items[i], trace[i], trace[i + 1])
}

/// Whether `rule` keeps the findings it is given and adds `findings(item)` to them.
pub open spec fn adds<T, F: Fn(&T, Vec<String>) -> (Vec<String>, Result<(), String>)>(
    rule: F,
    findings: spec_fn(T) -> Seq<Seq<char>>,
) -> bool {
    forall|item: T, errors: Vec<String>, out: (Vec<String>, Result<(), String>)| #[trigger]
        call_ensures(rule, (&item, errors), out) ==> outcome(out) == errors.deep_view() + findings(
            item,
        )
}

proof fn lemma_trace_of_adding_rule<
    T,
    F: Fn(&T, Vec<String>) -> (Vec<String>, Result<(), String>),
>(
    rule: F,
    items: Seq<T>,
    trace: Seq<Seq<Seq<char>>>,
    findings: spec_fn(T) -> Seq<Seq<char>>,
    n: int,
)
    requires
        is_trace(rule, items, trace),
        adds(rule, findings),
        0 <= n <= items.len(),
    ensures
        trace[n] == trace[0] + each(items.take(n), findings),
    decreases n,
{
    if n == 0 {
        assert(trace[0] =~= trace[0] + each(items.take(0), findings));
    } else {
        lemma_trace_of_adding_rule(rule, items, trace, findings, n - 1);
        assert(items.take(n).drop_last() == items.take(n - 1));
        assert(leads_to(rule, items[n - 1], trace[n - 1], trace[n]));
        assert(trace[n] =~= trace[0] + each(items.take(n), findings));
    }
}

/// Calls `rule` on every item in turn. The rule is handed the findings so far and
/// gives them back, with what it noted itself, and with a verdict; a verdict that is
/// an error is noted too.
pub fn wrapper<T, F: Fn(&T, Vec<String>) -> (Vec<String>, Result<(), String>)>(
    items: &Vec<T>,
    errors: &mut Vec<String>,
    rule: F,
)
    requires
        forall|i: int, found: Vec<String>|
            0 <= i < items.len() ==> #[trigger] call_requires(rule, (&items[i], found)),
    ensures
        exists|trace: Seq<Seq<Seq<char>>>|
            {
                &&& #[trigger] is_trace(rule, items@, trace)
                &&& trace.first() == old(errors).deep_view()
                &&& trace.last() == final(errors).deep_view()
            },
        forall|findings: spec_fn(T) -> Seq<Seq<char>>| #[trigger]
            adds(rule, findings) ==> final(errors).deep_view() == old(errors).deep_view() + each(
                items@,
                findings,
            ),
{
    let mut i: usize = 0;
    let ghost mut trace: Seq<Seq<Seq<char>>> = seq![errors.deep_view()];
    while i < items.len()
        invariant
            forall|i: int, found: Vec<String>|
                0 <= i < items.len() ==> #[trigger] call_requires(rule, (&items[i], found)),
            i <= items.len(),
            trace.len() == i + 1,
            trace[0] == old(errors).deep_view(),
            trace[i as int] == errors.deep_view(),
            forall|j: int|
                #![trigger items@[j]]
                0 <= j < i ==> leads_to(rule, items@[j], trace[j], trace[j + 1]),
        decreases items.len() - i,
    {
        let mut found: Vec<String> = Vec::new();
        std::mem::swap(errors, &mut found);
        let ghost before = found;
        let (mut noted, verdict) = rule(&items[i], found);
        let ghost out = (noted, verdict);
        assert(leads_to(rule, items@[i as int], before.deep_view(), outcome(out)));
        match verdict {
            Ok(()) => {},
            Err(message) => {
                noted.push(message);
                assert(noted.deep_view() =~= out.0.deep_view().push(message@));
            },
        }
        assert(noted.deep_view() =~= outcome(out));
        std::mem::swap(errors, &mut noted);
        proof {
            trace = trace.push(errors.deep_view());
        }
        i += 1;
    }
    proof {
        assert(is_trace(rule, items@, trace));
        assert forall|findings: spec_fn(T) -> Seq<Seq<char>>| #[trigger]
            adds(rule, findings) implies errors.deep_view() == old(errors).deep_view() + each(
            items@,
            findings,
        ) by {
            lemma_trace_of_adding_rule(rule, items@, trace, findings, items@.len() as int);
            assert(items@.take(items@.len() as int) == items@);
        }
    }
}

/// Items give no findings together exactly if each of them gives none.
pub proof fn law_each_empty<T>(items: Seq<T>, findings: spec_fn(T) -> Seq<Seq<char>>)
    ensures
        each(items, findings).len() == 0 <==> forall|i: int|
            #![trigger items[i]]
            0 <= i < items.len() ==> findings(items[i]).len() == 0,
    decreases items.len(),
{
    if items.len() > 0 {
        law_each_empty(items.drop_last(), findings);
        assert(forall|i: int|
            #![trigger items[i]]
            0 <= i < items.len() - 1 ==> items[i] == items.drop_last()[i]);
        if forall|i: int|
            #![trigger items[i]]
            0 <= i < items.len() ==> findings(items[i]).len() == 0 {
            assert(items.last() == items[items.len() - 1]);
            assert forall|i: int|
                #![trigger items.drop_last()[i]]
                0 <= i < items.drop_last().len() implies findings(items.drop_last()[i]).len() == 0 by {
                assert(items[i] == items.drop_last()[i]);
            }
        }
    }
}

/// What items give together is what one of them gives.
pub proof fn law_each_contains<T>(
    items: Seq<T>,
    findings: spec_fn(T) -> Seq<Seq<char>>,
    message: Seq<char>,
)
    ensures
        each(items, findings).contains(message) <==> exists|i: int|
            #![trigger items[i]]
            0 <= i < items.len() && findings(items[i]).contains(message),
    decreases items.len(),
{
    if items.len() > 0 {
        let init = items.drop_last();
        law_each_contains(init, findings, message);
        let head = each(init, findings);
        let tail = findings(items.last());
        if head.contains(message) {
            let i = choose|i: int|
                #![trigger init[i]]
                0 <= i < init.len() && findings(init[i]).contains(message);
            assert(items[i] == init[i]);
            let k = choose|k: int| 0 <= k < head.len() && head[k] == message;
            assert((head + tail)[k] == message);
        }
        if tail.contains(message) {
            assert(items[items.len() - 1] == items.last());
            let k = choose|k: int| 0 <= k < tail.len() && tail[k] == message;
            assert((head + tail)[head.len() + k] == message);
        }
        if each(items, findings).contains(message) {
            let k = choose|k: int| 0 <= k < (head + tail).len() && (head + tail)[k] == message;
            if k < head.len() {
                assert(head[k] == message);
            } else {
                assert(tail[k - head.len()] == message);
            }
        }
        if exists|i: int|
            #![trigger items[i]]
            0 <= i < items.len() && findings(items[i]).contains(message) {
            let i = choose|i: int|
                #![trigger items[i]]
                0 <= i < items.len() && findings(items[i]).contains(message);
            if i < init.len() {
                assert(init[i] == items[i]);
            }
        }
    }
}

/// If no item gives anything twice, and no two items give the same, nothing is given twice.
pub proof fn law_each_once<T>(items: Seq<T>, findings: spec_fn(T) -> Seq<Seq<char>>)
    requires
        forall|i: int|
            #![trigger items[i]]
            0 <= i < items.len() ==> findings(items[i]).no_duplicates(),
        forall|i: int, j: int, message: Seq<char>|
            #![trigger findings(items[i]).contains(message), findings(items[j])]
            0 <= i < j < items.len() && findings(items[i]).contains(message) ==> !findings(
                items[j],
            ).contains(message),
    ensures
        each(items, findings).no_duplicates(),
    decreases items.len(),
{
    if items.len() > 0 {
        let init = items.drop_last();
        let head = each(init, findings);
        let tail = findings(items.last());
        assert(forall|i: int| 0 <= i < init.len() ==> #[trigger] init[i] == items[i]);
        law_each_once(init, findings);
        assert(items[items.len() - 1] == items.last());
        assert forall|a: int, b: int| 0 <= a < head.len() && 0 <= b < tail.len() implies head[a]
            != tail[b] by {
            law_each_contains(init, findings, head[a]);
            assert(head.contains(head[a]));
            let i = choose|i: int|
                #![trigger init[i]]
                0 <= i < init.len() && findings(init[i]).contains(head[a]);
            assert(findings(items[i]).contains(head[a]));
            assert(!findings(items[items.len() - 1]).contains(head[a]));
            assert(tail.contains(tail[b]));
        }
    }
}

/// Whether every finding comes before all that follow it: the list is in order and
/// nothing occurs twice.
pub open spec fn ascending(found: Seq<Seq<char>>) -> bool {
    forall|i: int, j: int|
        #![trigger found[i], found[j]]
        0 <= i < j < found.len() ==> text::precedes(found[i], found[j])
}

/// Whether two lists hold the same findings, in whatever order and number.
pub open spec fn same_findings(a: Seq<Seq<char>>, b: Seq<Seq<char>>) -> bool {
    forall|message: Seq<char>|
        #![trigger a.contains(message)]
        #![trigger b.contains(message)]
        a.contains(message) <==> b.contains(message)
}

/// The report on a list of findings is the one list in order that holds the same
/// findings: the order in which they were found leaves no trace in it.
pub proof fn law_one_report(a: Seq<Seq<char>>, b: Seq<Seq<char>>)
    requires
        ascending(a),
        ascending(b),
        same_findings(a, b),
    ensures
        a == b,
    decreases a.len(),
{
    if a.len() == 0 {
        if b.len() > 0 {
            assert(b.contains(b[0]));
        }
        assert(a =~= b);
    } else {
        assert(a.contains(a.last()));
        let k = choose|k: int| 0 <= k < b.len() && b[k] == a.last();
        assert(b.contains(b.last()));
        let l = choose|l: int| 0 <= l < a.len() && a[l] == b.last();
        if k < b.len() - 1 {
            assert(text::precedes(b[k], b[b.len() - 1]));
            if l < a.len() - 1 {
                assert(text::precedes(a[l], a[a.len() - 1]));
                text::law_precedes_asymmetric(a.last(), b.last());
            } else {
                text::law_precedes_irreflexive(a.last());
            }
        }
        let x = a.drop_last();
        let y = b.drop_last();
        assert forall|message: Seq<char>| #[trigger] x.contains(message) implies y.contains(
            message,
        ) by {
            let i = choose|i: int| 0 <= i < x.len() && x[i] == message;
            assert(a[i] == message);
            assert(a.contains(message) && b.contains(message));
            let j = choose|j: int| 0 <= j < b.len() && b[j] == message;
            if j == b.len() - 1 {
                assert(text::precedes(a[i], a[a.len() - 1]));
                text::law_precedes_irreflexive(a.last());
            }
            assert(y[j] == message);
        }
        assert forall|message: Seq<char>| #[trigger] y.contains(message) implies x.contains(
            message,
        ) by {
            let i = choose|i: int| 0 <= i < y.len() && y[i] == message;
            assert(b[i] == message);
            assert(b.contains(message) && a.contains(message));
            let j = choose|j: int| 0 <= j < a.len() && a[j] == message;
            if j == a.len() - 1 {
                assert(text::precedes(b[i], b[b.len() - 1]));
                text::law_precedes_irreflexive(b.last());
            }
            assert(x[j] == message);
        }
        law_one_report(x, y);
        assert(a =~= x.push(a.last()));
        assert(b =~= y.push(b.last()));
    }
}

/// The place of `message` in a list in order: all before it come before the message,
/// and none from it on does.
fn place_of(found: &Vec<String>, message: &str) -> (place: usize)
    requires
        ascending(found.deep_view()),
    ensures
        place <= found.len(),
        forall|i: int|
            #![trigger found.deep_view()[i]]
            0 <= i < place ==> text::precedes(found.deep_view()[i], message@),
        forall|i: int|
            #![trigger found.deep_view()[i]]
            place <= i < found.len() ==> !text::precedes(found.deep_view()[i], message@),
{
    let mut low: usize = 0;
    let mut high: usize = found.len();
    while low < high
        invariant
            low <= high <= found.len(),
            ascending(found.deep_view()),
            forall|i: int|
                #![trigger found.deep_view()[i]]
                0 <= i < low ==> text::precedes(found.deep_view()[i], message@),
            forall|i: int|
                #![trigger found.deep_view()[i]]
                high <= i < found.len() ==> !text::precedes(found.deep_view()[i], message@),
        decreases high - low,
    {
        let middle: usize = low + (high - low) / 2;
        let ghost list = found.deep_view();
        assert(list[middle as int] == found[middle as int]@);
        if text::comes_before(found[middle].as_str(), message) {
            assert forall|i: int| #![trigger list[i]] 0 <= i < middle + 1 implies text::precedes(
                list[i],
                message@,
            ) by {
                if i < middle {
                    assert(text::precedes(list[i], list[middle as int]));
                    text::law_precedes_transitive(list[i], list[middle as int], message@);
                }
            }
            low = middle + 1;
        } else {
            assert forall|i: int|
                #![trigger list[i]]
                middle <= i < found.len() implies !text::precedes(list[i], message@) by {
                if i > middle && text::precedes(list[i], message@) {
                    assert(text::precedes(list[middle as int], list[i]));
                    text::law_precedes_transitive(list[middle as int], list[i], message@);
                }
            }
            high = middle;
        }
    }
    low
}

/// Puts `message` in its place in a list in order, unless it is there.
fn place(found: &mut Vec<String>, message: String)
    requires
        ascending(old(found).deep_view()),
    ensures
        ascending(final(found).deep_view()),
        forall|m: Seq<char>| #[trigger]
            final(found).deep_view().contains(m) <==> old(found).deep_view().contains(m) || m
                == message@,
{
    let at: usize = place_of(found, message.as_str());
    let ghost list = found.deep_view();
    if at < found.len() && text::same_text(found[at].as_str(), message.as_str()) {
        assert(list[at as int] == message@);
        return;
    }
    found.insert(at, message);
    let ghost longer = found.deep_view();
    proof {
        assert(longer =~= list.insert(at as int, message@));
        assert forall|i: int, j: int|
            #![trigger longer[i], longer[j]]
            0 <= i < j < longer.len() implies text::precedes(longer[i], longer[j]) by {
            if j < at {
                assert(text::precedes(list[i], list[j]));
            } else if j == at {
                assert(text::precedes(list[i], message@));
            } else if i == at {
                assert(!text::precedes(list[j - 1], message@));
                assert(list[at as int] != message@);
                if list[j - 1] == message@ {
                    assert(text::precedes(list[at as int], list[j - 1]));
                }
                text::law_precedes_total(list[j - 1], message@);
            } else if i < at {
                assert(text::precedes(list[i], list[j - 1]));
            } else {
                assert(text::precedes(list[i - 1], list[j - 1]));
            }
        }
        assert forall|m: Seq<char>| #[trigger] longer.contains(m) implies list.contains(m) || m
            == message@ by {
            let i = choose|i: int| 0 <= i < longer.len() && longer[i] == m;
            if i < at {
                assert(list[i] == m);
            } else if i > at {
                assert(list[i - 1] == m);
            }
        }
        assert forall|m: Seq<char>| list.contains(m) || m == message@ implies #[trigger] longer.contains(
            m,
        ) by {
            if m == message@ {
                assert(longer[at as int] == m);
            } else {
                let i = choose|i: int| 0 <= i < list.len() && list[i] == m;
                if i < at {
                    assert(longer[i] == m);
                } else {
                    assert(longer[i + 1] == m);
                }
            }
        }
    }
}

/// The findings in order, each of them once.
pub fn sort_and_dedup(errors: Vec<String>) -> (sorted: Vec<String>)
    ensures
        ascending(sorted.deep_view()),
        same_findings(sorted.deep_view(), errors.deep_view()),
{
    let mut sorted: Vec<String> = Vec::new();
    let ghost all = errors.deep_view();
    let mut i: usize = 0;
    while i < errors.len()
        invariant
            i <= errors.len(),
            all == errors.deep_view(),
            ascending(sorted.deep_view()),
            same_findings(sorted.deep_view(), all.take(i as int)),
        decreases errors.len() - i,
    {
        place(&mut sorted, errors[i].clone());
        proof {
            let message = errors[i as int]@;
            let shorter = all.take(i as int);
            let longer = all.take(i + 1);
            assert(longer =~= shorter.push(message));
            assert forall|m: Seq<char>| #[trigger] longer.contains(m) <==> shorter.contains(m) || m
                == message by {
                if shorter.contains(m) {
                    let k = choose|k: int| 0 <= k < shorter.len() && shorter[k] == m;
                    assert(longer[k] == m);
                }
                if m == message {
                    assert(longer[i as int] == m);
                }
                if longer.contains(m) && m != message {
                    let k = choose|k: int| 0 <= k < longer.len() && longer[k] == m;
                    assert(shorter[k] == m);
                }
            }
        }
        i += 1;
    }
    assert(all.take(i as int) =~= all);
    sorted
}

/// What a rule leads to is what it hands back, with the message behind it if its verdict is
/// an error.
pub proof fn law_outcome(noted: Vec<String>, message: String)
    ensures
        outcome((noted, Ok(()))) == noted.deep_view(),
        outcome((noted, Err(message))) == noted.deep_view().push(message@),
{
    assert(outcome((noted, Ok(()))) =~= noted.deep_view());
    assert(outcome((noted, Err(message))) =~= noted.deep_view().push(message@));
}

/// As a rule is called on items in turn, it is handed what there was after the item before,
/// and what it hands back, with the message of its verdict, is what there is after its own.
pub proof fn law_trace<T, F: Fn(&T, Vec<String>) -> (Vec<String>, Result<(), String>)>(
    rule: F,
    items: Seq<T>,
    trace: Seq<Seq<Seq<char>>>,
    i: int,
)
    requires
        is_trace(rule, items, trace),
        0 <= i < items.len(),
    ensures
        trace.len() == items.len() + 1,
        exists|errors: Vec<String>, noted: Vec<String>, verdict: Result<(), String>|
            {
                &&& #[trigger] call_ensures(rule, (&items[i], errors), (noted, verdict))
                &&& errors.deep_view() == trace[i]
                &&& verdict is Ok ==> trace[i + 1] == noted.deep_view()
                &&& verdict matches Err(message) ==> trace[i + 1] == noted.deep_view().push(
                    message@,
                )
            },
{
    assert(leads_to(rule, items[i], trace[i], trace[i + 1]));
    let (errors, out) = choose|errors: Vec<String>, out: (Vec<String>, Result<(), String>)|
        #[trigger]
        call_ensures(rule, (&items[i], errors), out) && errors.deep_view() == trace[i] && trace[i
            + 1] == outcome(out);
    assert(call_ensures(rule, (&items[i], errors), (out.0, out.1)));
    if out.1 is Err {
        law_outcome(out.0, out.1->Err_0);
    } else {
        assert(outcome(out) =~= out.0.deep_view());
    }
}

/// What items give together is what the first gives, then what the second gives, and so on.
pub proof fn law_each_in_turn<T>(items: Seq<T>, findings: spec_fn(T) -> Seq<Seq<char>>)
    ensures
        each(items, findings) == items.flat_map(findings),
    decreases items.len(),
{
    if items.len() == 0 {
        assert(items.flat_map(findings) =~= seq![]);
    } else {
        law_each_in_turn(items.drop_last(), findings);
        items.drop_last().lemma_flat_map_push(findings, items.last());
        assert(items.drop_last().push(items.last()) =~= items);
    }
}

/// If an item gives one finding when something is wrong with it and none otherwise, there is
/// one for each item with which something is wrong, in the order of the items.
pub proof fn law_each_of_the_wrong<T>(
    items: Seq<T>,
    findings: spec_fn(T) -> Seq<Seq<char>>,
    wrong: spec_fn(T) -> bool,
    words: spec_fn(T) -> Seq<char>,
)
    requires
        forall|item: T| #[trigger]
            findings(item) == (if wrong(item) {
                seq![words(item)]
            } else {
                seq![]
            }),
    ensures
        each(items, findings) == items.filter(wrong).map_values(words),
    decreases items.len(),
{
    reveal(Seq::filter);
    if items.len() == 0 {
        assert(items.filter(wrong).map_values(words) =~= seq![]);
    } else {
        let init = items.drop_last();
        law_each_of_the_wrong(init, findings, wrong, words);
        let head = init.filter(wrong).map_values(words);
        if wrong(items.last()) {
            assert(items.filter(wrong).map_values(words) =~= head + seq![words(items.last())]);
        } else {
            assert(head + findings(items.last()) =~= head);
        }
    }
}

/// The same of texts: one finding for each text with which something is wrong.
pub proof fn law_each_of_the_wrong_texts(
    texts: Vec<String>,
    findings: spec_fn(String) -> Seq<Seq<char>>,
    wrong: spec_fn(Seq<char>) -> bool,
    words: spec_fn(Seq<char>) -> Seq<char>,
)
    requires
        forall|text: String| #[trigger]
            findings(text) == (if wrong(text@) {
                seq![words(text@)]
            } else {
                seq![]
            }),
    ensures
        each(texts@, findings) == texts.deep_view().filter(wrong).map_values(words),
{
    assert(texts@.map_values(|text: String| text@) =~= texts.deep_view());
    lemma_each_of_the_wrong_texts(texts@, findings, wrong, words);
}

proof fn lemma_each_of_the_wrong_texts(
    texts: Seq<String>,
    findings: spec_fn(String) -> Seq<Seq<char>>,
    wrong: spec_fn(Seq<char>) -> bool,
    words: spec_fn(Seq<char>) -> Seq<char>,
)
    requires
        forall|text: String| #[trigger]
            findings(text) == (if wrong(text@) {
                seq![words(text@)]
            } else {
                seq![]
            }),
    ensures
        each(texts, findings) == texts.map_values(|text: String| text@).filter(wrong).map_values(
            words,
        ),
    decreases texts.len(),
{
    reveal(Seq::filter);
    let views = texts.map_values(|text: String| text@);
    if texts.len() == 0 {
        assert(views.filter(wrong).map_values(words) =~= seq![]);
    } else {
        let init = texts.drop_last();
        let before = init.map_values(|text: String| text@);
        lemma_each_of_the_wrong_texts(init, findings, wrong, words);
        assert(views.drop_last() =~= before);
        let head = before.filter(wrong).map_values(words);
        if wrong(texts.last()@) {
            assert(views.filter(wrong).map_values(words) =~= head + seq![words(texts.last()@)]);
        } else {
            assert(head + findings(texts.last()) =~= head);
        }
    }
}

/// What is given place by place, with one place more, is what it was with that of the place
/// behind it.
pub(crate) proof fn lemma_one_place_more(n: nat, at: spec_fn(int) -> Seq<Seq<char>>)
    ensures
        Seq::new(n + 1, at).flatten() == Seq::new(n, at).flatten() + at(n as int),
{
    assert(Seq::new(n + 1, at) =~= Seq::new(n, at).push(at(n as int)));
    Seq::new(n, at).lemma_flatten_push(at(n as int));
}

/// A list in order that holds the same as another has all that it has, nothing twice, and no
/// message before one that comes before it.
pub proof fn law_report(report: Seq<Seq<char>>, found: Seq<Seq<char>>)
    requires
        ascending(report),
        same_findings(report, found),
    ensures
        report.to_set() == found.to_set(),
        report.no_duplicates(),
        forall|i: int, j: int|
            #![trigger report[i], report[j]]
            0 <= i < j < report.len() ==> text::precedes(report[i], report[j]),
{
    assert forall|message: Seq<char>| #[trigger] report.to_set().contains(message)
        <==> found.to_set().contains(message) by {
        assert(report.contains(message) <==> found.contains(message));
    }
    assert(report.to_set() =~= found.to_set());
    assert forall|i: int, j: int|
        0 <= i < report.len() && 0 <= j < report.len() && i != j implies report[i] != report[j] by {
        text::law_precedes_irreflexive(report[i]);
        if i < j {
            assert(text::precedes(report[i], report[j]));
        } else {
            assert(text::precedes(report[j], report[i]));
        }
    }
}

/// What texts give together is what the first gives, then what the second gives, and so on.
pub proof fn law_each_text_in_turn(
    texts: Vec<String>,
    findings: spec_fn(String) -> Seq<Seq<char>>,
    of_text: spec_fn(Seq<char>) -> Seq<Seq<char>>,
)
    requires
        forall|text: String| #[trigger] findings(text) == of_text(text@),
    ensures
        each(texts@, findings) == texts.deep_view().flat_map(of_text),
{
    law_each_in_turn(texts@, findings);
    assert(texts@.map_values(findings) =~= texts.deep_view().map_values(of_text));
}

} // verus!
