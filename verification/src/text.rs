//! Texts: how they are compared, searched and written.

use vstd::prelude::*;
use vstd::std_specs::iter::IteratorSpec;

verus! {

/// Whether a text starts with `prefix`.
pub open spec fn is_prefix(prefix: Seq<char>, text: Seq<char>) -> bool {
    prefix.len() <= text.len() && text.take(prefix.len() as int) == prefix
}

/// Whether two texts are the same.
pub fn same_text(a: &str, b: &str) -> (same: bool)
    ensures
        same == (a@ == b@),
{
    let mut x = a.chars();
    let mut y = b.chars();
    let ghost mut n: int = 0;
    loop
        invariant
            x.obeys_prophetic_iter_laws(),
            y.obeys_prophetic_iter_laws(),
            0 <= n <= a@.len(),
            n <= b@.len(),
            a@.take(n) == b@.take(n),
            x.remaining() == a@.skip(n),
            y.remaining() == b@.skip(n),
        decreases a@.len() - n,
    {
        match (x.next(), y.next()) {
            (None, None) => {
                assert(a@.take(n) == a@ && b@.take(n) == b@);
                return true;
            },
            (Some(c), Some(d)) => {
                assert(c == a@[n] && d == b@[n]);
                if c != d {
                    return false;
                }
                assert(a@.take(n + 1) == a@.take(n).push(c));
                assert(b@.take(n + 1) == b@.take(n).push(c));
                assert(a@.skip(n).drop_first() == a@.skip(n + 1));
                assert(b@.skip(n).drop_first() == b@.skip(n + 1));
                proof { n = n + 1; }
            },
            _ => {
                assert(a@.len() != b@.len());
                return false;
            },
        }
    }
}

/// Whether a text starts with `prefix`.
pub fn starts_with(text: &str, prefix: &str) -> (yes: bool)
    ensures
        yes == is_prefix(prefix@, text@),
{
    let mut rest = text.chars();
    let mut wanted = prefix.chars();
    let ghost mut n: int = 0;
    loop
        invariant
            rest.obeys_prophetic_iter_laws(),
            wanted.obeys_prophetic_iter_laws(),
            0 <= n <= prefix@.len(),
            n <= text@.len(),
            text@.take(n) == prefix@.take(n),
            rest.remaining() == text@.skip(n),
            wanted.remaining() == prefix@.skip(n),
        decreases prefix@.len() - n,
    {
        match wanted.next() {
            None => {
                assert(prefix@.take(n) == prefix@);
                return true;
            },
            Some(w) => {
                assert(w == prefix@[n]);
                match rest.next() {
                    None => { return false; },
                    Some(c) => {
                        assert(c == text@[n]);
                        if c != w {
                            assert(text@.take(prefix@.len() as int)[n] == c || text@.len() < prefix@.len());
                            return false;
                        }
                    },
                }
                assert(text@.take(n + 1) == text@.take(n).push(w));
                assert(prefix@.take(n + 1) == prefix@.take(n).push(w));
                assert(text@.skip(n).drop_first() == text@.skip(n + 1));
                assert(prefix@.skip(n).drop_first() == prefix@.skip(n + 1));
                proof { n = n + 1; }
            },
        }
    }
}

/// Whether `wanted` occurs in a text.
pub fn has_char(text: &str, wanted: char) -> (yes: bool)
    ensures
        yes == text@.contains(wanted),
{
    for c in it: text.chars()
        invariant
            it.seq() == text@,
            forall|i: int| 0 <= i < it.index() ==> text@[i] != wanted,
    {
        if c == wanted {
            assert(text@[it.index()] == wanted);
            return true;
        }
    }
    false
}

/// Whether `a` comes before `b`, as texts are ordered by their first difference: there
/// `a` ends or has the lesser code point. Strings are ordered so too: their bytes differ
/// as their code points do.
pub open spec fn precedes(a: Seq<char>, b: Seq<char>) -> bool {
    exists|k: int| #[trigger] differ_at(a, b, k) && k < b.len() && (k == a.len() || a[k] < b[k])
}

/// Whether `a` and `b` are the same up to `k` and not beyond.
pub open spec fn differ_at(a: Seq<char>, b: Seq<char>, k: int) -> bool {
    &&& 0 <= k <= a.len()
    &&& k <= b.len()
    &&& k < a.len() || k < b.len()
    &&& a.take(k) == b.take(k)
    &&& k < a.len() && k < b.len() ==> a[k] != b[k]
}

proof fn lemma_one_difference(a: Seq<char>, b: Seq<char>, k: int, l: int)
    requires
        differ_at(a, b, k),
        differ_at(a, b, l),
    ensures
        k == l,
{
    if k < l {
        assert(a.take(l)[k] == b.take(l)[k]);
    }
    if l < k {
        assert(a.take(k)[l] == b.take(k)[l]);
    }
}

/// No text comes before itself.
pub proof fn law_precedes_irreflexive(a: Seq<char>)
    ensures
        !precedes(a, a),
{
}

/// Of two texts that come one before the other, the later does not come first.
pub proof fn law_precedes_asymmetric(a: Seq<char>, b: Seq<char>)
    requires
        precedes(a, b),
    ensures
        !precedes(b, a),
{
    let k = choose|k: int| #[trigger]
        differ_at(a, b, k) && k < b.len() && (k == a.len() || a[k] < b[k]);
    assert(differ_at(b, a, k));
    if precedes(b, a) {
        let l = choose|l: int| #[trigger]
            differ_at(b, a, l) && l < a.len() && (l == b.len() || b[l] < a[l]);
        lemma_one_difference(b, a, k, l);
    }
}

/// What comes before a text comes before all that comes after that text.
pub proof fn law_precedes_transitive(a: Seq<char>, b: Seq<char>, c: Seq<char>)
    requires
        precedes(a, b),
        precedes(b, c),
    ensures
        precedes(a, c),
{
    let k = choose|k: int| #[trigger]
        differ_at(a, b, k) && k < b.len() && (k == a.len() || a[k] < b[k]);
    let l = choose|l: int| #[trigger]
        differ_at(b, c, l) && l < c.len() && (l == b.len() || b[l] < c[l]);
    let m = if k <= l { k } else { l };
    assert forall|i: int| 0 <= i < m implies a[i] == c[i] by {
        assert(a.take(k)[i] == b.take(k)[i]);
        assert(b.take(l)[i] == c.take(l)[i]);
    }
    assert(a.take(m) =~= c.take(m));
    if k < l {
        assert(b.take(l)[k] == c.take(l)[k]);
    }
    if l < k {
        assert(a.take(k)[l] == b.take(k)[l]);
    }
    assert(differ_at(a, c, m));
}

/// Of two different texts, one comes before the other.
pub proof fn law_precedes_total(a: Seq<char>, b: Seq<char>)
    requires
        a != b,
    ensures
        precedes(a, b) || precedes(b, a),
{
    let k = first_difference(a, b);
    lemma_first_difference(a, b);
    assert(differ_at(a, b, k) && differ_at(b, a, k));
}

spec fn first_difference(a: Seq<char>, b: Seq<char>) -> int
    decreases a.len(),
{
    if a.len() == 0 || b.len() == 0 || a[0] != b[0] {
        0
    } else {
        1 + first_difference(a.drop_first(), b.drop_first())
    }
}

proof fn lemma_first_difference(a: Seq<char>, b: Seq<char>)
    requires
        a != b,
    ensures
        differ_at(a, b, first_difference(a, b)),
    decreases a.len(),
{
    if a.len() == 0 || b.len() == 0 || a[0] != b[0] {
        assert(a.take(0) =~= b.take(0));
        if a.len() == 0 && b.len() == 0 {
            assert(a =~= b);
        }
    } else {
        let x = a.drop_first();
        let y = b.drop_first();
        if x == y {
            assert(a =~= seq![a[0]] + x);
            assert(b =~= seq![b[0]] + y);
        }
        lemma_first_difference(x, y);
        let k = first_difference(x, y);
        assert forall|i: int| 0 <= i < k + 1 implies a[i] == b[i] by {
            if i > 0 {
                assert(x.take(k)[i - 1] == y.take(k)[i - 1]);
            }
        }
        assert(a.take(k + 1) =~= b.take(k + 1));
    }
}

/// Whether `a` comes before `b` in the order of texts.
pub fn comes_before(a: &str, b: &str) -> (yes: bool)
    ensures
        yes == precedes(a@, b@),
{
    let mut x = a.chars();
    let mut y = b.chars();
    let ghost mut n: int = 0;
    loop
        invariant
            x.obeys_prophetic_iter_laws(),
            y.obeys_prophetic_iter_laws(),
            0 <= n <= a@.len(),
            n <= b@.len(),
            a@.take(n) == b@.take(n),
            x.remaining() == a@.skip(n),
            y.remaining() == b@.skip(n),
        decreases a@.len() - n,
    {
        match (x.next(), y.next()) {
            (Some(c), Some(d)) => {
                if c != d {
                    proof {
                        assert(differ_at(a@, b@, n));
                        if precedes(a@, b@) {
                            let k = choose|k: int| #[trigger]
                                differ_at(a@, b@, k) && k < b@.len() && (k == a@.len() || a@[k]
                                    < b@[k]);
                            lemma_one_difference(a@, b@, k, n);
                        }
                    }
                    return c < d;
                }
                proof {
                    assert(a@.take(n + 1) =~= a@.take(n).push(c));
                    assert(b@.take(n + 1) =~= b@.take(n).push(c));
                    assert(a@.skip(n).drop_first() =~= a@.skip(n + 1));
                    assert(b@.skip(n).drop_first() =~= b@.skip(n + 1));
                    n = n + 1;
                }
            },
            (None, Some(_)) => {
                assert(differ_at(a@, b@, n));
                return true;
            },
            (_, None) => {
                proof {
                    if precedes(a@, b@) {
                        let k = choose|k: int| #[trigger]
                            differ_at(a@, b@, k) && k < b@.len() && (k == a@.len() || a@[k]
                                < b@[k]);
                        assert(a@.take(n)[k] == b@.take(n)[k]);
                    }
                }
                return false;
            },
        }
    }
}

/// Whether a list of texts holds `wanted`.
pub fn contains_text(list: &Vec<String>, wanted: &str) -> (yes: bool)
    ensures
        yes == list.deep_view().contains(wanted@),
{
    let mut i: usize = 0;
    while i < list.len()
        invariant
            i <= list.len(),
            forall|j: int| 0 <= j < i ==> list.deep_view()[j] != wanted@,
        decreases list.len() - i,
    {
        assert(list.deep_view()[i as int] == list[i as int]@);
        if same_text(list[i].as_str(), wanted) {
            return true;
        }
        i += 1;
    }
    false
}

/// One decimal digit.
pub open spec fn digit(n: int) -> Seq<char> {
    if n == 0 {
        "0"@
    } else if n == 1 {
        "1"@
    } else if n == 2 {
        "2"@
    } else if n == 3 {
        "3"@
    } else if n == 4 {
        "4"@
    } else if n == 5 {
        "5"@
    } else if n == 6 {
        "6"@
    } else if n == 7 {
        "7"@
    } else if n == 8 {
        "8"@
    } else {
        "9"@
    }
}

/// A number in decimal digits, without leading zeros.
pub open spec fn decimal(n: int) -> Seq<char>
    decreases n,
{
    if n < 10 {
        digit(n)
    } else {
        decimal(n / 10) + digit(n % 10)
    }
}

/// Writes a number in decimal digits.
pub fn decimal_text(n: usize) -> (text: String)
    ensures
        text@ == decimal(n as int),
    decreases n,
{
    let last: &str = match n % 10 {
        0 => "0",
        1 => "1",
        2 => "2",
        3 => "3",
        4 => "4",
        5 => "5",
        6 => "6",
        7 => "7",
        8 => "8",
        _ => "9",
    };
    if n < 10 {
        last.to_owned()
    } else {
        decimal_text(n / 10).concat(last)
    }
}

/// What `char::is_alphanumeric` says of a character.
pub uninterp spec fn alphanumeric(c: char) -> bool;

/// Whether a character is one of the ASCII letters and digits.
pub open spec fn ascii_alphanumeric(c: char) -> bool {
    ||| 'a' <= c <= 'z'
    ||| 'A' <= c <= 'Z'
    ||| '0' <= c <= '9'
}

/// Whether a character is a letter or a number: of the ASCII characters the letters and
/// the digits, and of the others those of which `char::is_alphanumeric` says so.
pub open spec fn letter_or_number(c: char) -> bool {
    if c <= '\x7f' {
        ascii_alphanumeric(c)
    } else {
        alphanumeric(c)
    }
}

/// `char::is_alphanumeric` of std: whether a character is a letter or a number by the
/// properties that Unicode gives it. The result rests on the character alone, and of
/// the ASCII characters it holds of the letters and the digits only.
pub assume_specification[ char::is_alphanumeric ](c: char) -> (yes: bool)
    ensures
        yes == alphanumeric(c),
        c <= '\x7f' ==> yes == ascii_alphanumeric(c),
;

/// A text starts with a prefix exactly if it is the prefix with something behind it.
pub proof fn law_prefix(prefix: Seq<char>, text: Seq<char>)
    ensures
        is_prefix(prefix, text) <==> exists|rest: Seq<char>| text == #[trigger] (prefix + rest),
{
    if is_prefix(prefix, text) {
        let rest = text.skip(prefix.len() as int);
        assert forall|i: int| 0 <= i < prefix.len() implies text[i] == prefix[i] by {
            assert(text.take(prefix.len() as int)[i] == text[i]);
        }
        assert(text =~= prefix + rest);
    }
    if exists|rest: Seq<char>| text == #[trigger] (prefix + rest) {
        let rest = choose|rest: Seq<char>| text == #[trigger] (prefix + rest);
        assert(text.take(prefix.len() as int) =~= prefix);
    }
}

/// Nothing comes before the empty text, which comes before all others. Of two others, their
/// first characters tell which comes first, and where those are the same, what follows does.
pub proof fn law_precedes_by_heads(a: Seq<char>, b: Seq<char>)
    ensures
        b.len() == 0 ==> !precedes(a, b),
        a.len() == 0 && b.len() > 0 ==> precedes(a, b),
        a.len() > 0 && b.len() > 0 && a[0] != b[0] ==> (precedes(a, b) <==> a[0] < b[0]),
        a.len() > 0 && b.len() > 0 && a[0] == b[0] ==> (precedes(a, b) <==> precedes(
            a.drop_first(),
            b.drop_first(),
        )),
{
    let x = a.drop_first();
    let y = b.drop_first();
    if b.len() > 0 && (a.len() == 0 || a[0] != b[0]) {
        assert(a.take(0) =~= b.take(0));
        assert(differ_at(a, b, 0));
        if precedes(a, b) {
            let k = choose|k: int| #[trigger]
                differ_at(a, b, k) && k < b.len() && (k == a.len() || a[k] < b[k]);
            lemma_one_difference(a, b, k, 0);
        }
    }
    if a.len() > 0 && b.len() > 0 && a[0] == b[0] {
        if precedes(a, b) {
            let k = choose|k: int| #[trigger]
                differ_at(a, b, k) && k < b.len() && (k == a.len() || a[k] < b[k]);
            assert forall|i: int| 0 <= i < k - 1 implies x[i] == y[i] by {
                assert(a.take(k)[i + 1] == b.take(k)[i + 1]);
            }
            assert(x.take(k - 1) =~= y.take(k - 1));
            assert(differ_at(x, y, k - 1));
        }
        if precedes(x, y) {
            let k = choose|k: int| #[trigger]
                differ_at(x, y, k) && k < y.len() && (k == x.len() || x[k] < y[k]);
            assert forall|i: int| 0 <= i < k + 1 implies a[i] == b[i] by {
                if i > 0 {
                    assert(x.take(k)[i - 1] == y.take(k)[i - 1]);
                }
            }
            assert(a.take(k + 1) =~= b.take(k + 1));
            assert(differ_at(a, b, k + 1));
        }
    }
}

/// The last digit of a number is what is left of it over the tens, and the digits before it
/// are those of the number of tens; a number of no tens has one digit.
pub proof fn law_decimal(n: int)
    requires
        n >= 0,
    ensures
        decimal(n).len() > 0,
        decimal(n).last() as int == '0' as int + n % 10,
        n < 10 ==> decimal(n).len() == 1,
        n >= 10 ==> decimal(n).drop_last() == decimal(n / 10),
{
    reveal_strlit("0");
    reveal_strlit("1");
    reveal_strlit("2");
    reveal_strlit("3");
    reveal_strlit("4");
    reveal_strlit("5");
    reveal_strlit("6");
    reveal_strlit("7");
    reveal_strlit("8");
    reveal_strlit("9");
    if n >= 10 {
        assert(decimal(n).drop_last() =~= decimal(n / 10));
    }
}

/// Of the ASCII characters, the letters and the digits are letters or numbers; of the others
/// those of which `char::is_alphanumeric` says so.
pub proof fn law_letter_or_number(c: char)
    ensures
        c <= '\x7f' ==> (letter_or_number(c) <==> ('a' <= c <= 'z' || 'A' <= c <= 'Z' || '0' <= c
            <= '9')),
        c > '\x7f' ==> (letter_or_number(c) <==> alphanumeric(c)),
{
}

} // verus!
