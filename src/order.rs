use vstd::prelude::*;
use vstd::string::StrSliceExecFns;

verus! {

/// Lexicographic order on character strings, looking from position `i` on:
/// at the first differing position the smaller character decides, and a
/// proper prefix comes first.
pub open spec fn chars_lt_at(a: Seq<char>, b: Seq<char>, i: int) -> bool
    decreases a.len() - i,
{
    if i >= a.len() {
        i < b.len()
    } else if i >= b.len() {
        false
    } else if a[i] != b[i] {
        (a[i] as int) < (b[i] as int)
    } else {
        chars_lt_at(a, b, i + 1)
    }
}

/// `a` comes strictly before `b` in lexicographic order.
pub open spec fn chars_lt(a: Seq<char>, b: Seq<char>) -> bool {
    chars_lt_at(a, b, 0)
}

/// Element-wise order on lists of strings, looking from position `i` on: the
/// first differing element decides; lists that agree up to the shorter
/// length are not ordered.
pub open spec fn texts_lt_at(a: Seq<Seq<char>>, b: Seq<Seq<char>>, i: int) -> bool
    decreases a.len() - i,
{
    if i >= a.len() || i >= b.len() {
        false
    } else if a[i] != b[i] {
        chars_lt(a[i], b[i])
    } else {
        texts_lt_at(a, b, i + 1)
    }
}

/// The order used to pick a processing path: a shorter one wins, and among
/// equally long ones the first differing item text decides.
pub open spec fn better(a: Seq<Seq<char>>, b: Seq<Seq<char>>) -> bool {
    a.len() < b.len() || (a.len() == b.len() && texts_lt_at(a, b, 0))
}

pub proof fn lemma_chars_lt_irreflexive(a: Seq<char>, i: int)
    requires
        0 <= i,
    ensures
        !chars_lt_at(a, a, i),
    decreases a.len() - i,
{
    if i < a.len() {
        lemma_chars_lt_irreflexive(a, i + 1);
    }
}

pub proof fn lemma_chars_lt_transitive(a: Seq<char>, b: Seq<char>, c: Seq<char>, i: int)
    requires
        0 <= i,
        chars_lt_at(a, b, i),
        chars_lt_at(b, c, i),
    ensures
        chars_lt_at(a, c, i),
    decreases a.len() - i,
{
    if i < a.len() && i < b.len() && i < c.len() && a[i] == b[i] && b[i] == c[i] {
        lemma_chars_lt_transitive(a, b, c, i + 1);
    }
}

pub proof fn lemma_chars_lt_total(a: Seq<char>, b: Seq<char>, i: int)
    requires
        0 <= i,
        a.subrange(0, i) == b.subrange(0, i),
        i <= a.len(),
        i <= b.len(),
        !chars_lt_at(a, b, i),
        !chars_lt_at(b, a, i),
    ensures
        a == b,
    decreases a.len() - i,
{
    if i < a.len() && i < b.len() {
        if a[i] == b[i] {
            assert(a.subrange(0, i + 1) =~= a.subrange(0, i).push(a[i]));
            assert(b.subrange(0, i + 1) =~= b.subrange(0, i).push(b[i]));
            lemma_chars_lt_total(a, b, i + 1);
        } else {
            assert((a[i] as int) != (b[i] as int));
        }
    } else {
        assert(a =~= a.subrange(0, i));
        assert(b =~= b.subrange(0, i));
    }
}

pub proof fn lemma_texts_lt_transitive(
    a: Seq<Seq<char>>,
    b: Seq<Seq<char>>,
    c: Seq<Seq<char>>,
    i: int,
)
    requires
        0 <= i,
        texts_lt_at(a, b, i),
        texts_lt_at(b, c, i),
    ensures
        texts_lt_at(a, c, i),
    decreases a.len() - i,
{
    if a[i] == b[i] && b[i] == c[i] {
        lemma_texts_lt_transitive(a, b, c, i + 1);
    } else if a[i] != b[i] && b[i] != c[i] {
        lemma_chars_lt_transitive(a[i], b[i], c[i], 0);
        if a[i] == c[i] {
            lemma_chars_lt_irreflexive(a[i], 0);
        }
    }
}

pub proof fn lemma_texts_lt_total(a: Seq<Seq<char>>, b: Seq<Seq<char>>, i: int)
    requires
        0 <= i <= a.len(),
        a.len() == b.len(),
        a.subrange(0, i) == b.subrange(0, i),
        !texts_lt_at(a, b, i),
        !texts_lt_at(b, a, i),
    ensures
        a == b,
    decreases a.len() - i,
{
    if i < a.len() {
        if a[i] != b[i] {
            assert(a[i].subrange(0, 0) =~= b[i].subrange(0, 0));
            lemma_chars_lt_total(a[i], b[i], 0);
        }
        assert(a.subrange(0, i + 1) =~= a.subrange(0, i).push(a[i]));
        assert(b.subrange(0, i + 1) =~= b.subrange(0, i).push(b[i]));
        lemma_texts_lt_total(a, b, i + 1);
    } else {
        assert(a =~= a.subrange(0, i));
        assert(b =~= b.subrange(0, i));
    }
}

pub proof fn lemma_better_transitive(a: Seq<Seq<char>>, b: Seq<Seq<char>>, c: Seq<Seq<char>>)
    requires
        better(a, b),
        better(b, c),
    ensures
        better(a, c),
{
    if a.len() == b.len() && b.len() == c.len() {
        lemma_texts_lt_transitive(a, b, c, 0);
    }
}

pub proof fn lemma_better_total(a: Seq<Seq<char>>, b: Seq<Seq<char>>)
    requires
        !better(a, b),
        !better(b, a),
    ensures
        a == b,
{
    assert(a.subrange(0, 0) =~= b.subrange(0, 0));
    lemma_texts_lt_total(a, b, 0);
}

proof fn lemma_texts_lt_shift(h: Seq<char>, a: Seq<Seq<char>>, b: Seq<Seq<char>>, i: int)
    requires
        0 <= i,
    ensures
        texts_lt_at(seq![h] + a, seq![h] + b, i + 1) == texts_lt_at(a, b, i),
    decreases a.len() - i,
{
    let (x, y) = (seq![h] + a, seq![h] + b);
    if i < a.len() && i < b.len() {
        assert(x[i + 1] == a[i]);
        assert(y[i + 1] == b[i]);
        lemma_texts_lt_shift(h, a, b, i + 1);
    }
}

/// Putting the same item in front of two paths keeps their order.
pub proof fn lemma_better_prepend(h: Seq<char>, a: Seq<Seq<char>>, b: Seq<Seq<char>>)
    ensures
        better(seq![h] + a, seq![h] + b) == better(a, b),
{
    lemma_texts_lt_shift(h, a, b, 0);
    assert((seq![h] + a)[0] == (seq![h] + b)[0]);
}

/// Whether `a` comes strictly before `b` in lexicographic order.
pub fn str_less(a: &str, b: &str) -> (r: bool)
    ensures
        r == chars_lt(a@, b@),
{
    let n = a.unicode_len();
    let m = b.unicode_len();
    let mut i: usize = 0;
    while i < n && i < m
        invariant
            n == a@.len(),
            m == b@.len(),
            i <= n,
            i <= m,
            chars_lt_at(a@, b@, 0) == chars_lt_at(a@, b@, i as int),
        decreases n - i,
    {
        let x = a.get_char(i);
        let y = b.get_char(i);
        if x != y {
            return (x as u32) < (y as u32);
        }
        i = i + 1;
    }
    i < m
}

} // verus!
