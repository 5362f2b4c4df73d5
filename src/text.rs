use vstd::prelude::*;

verus! {

/// Relies on `String::from_iter`: the string holds the given characters in
/// order.
#[verifier::external_body]
pub(crate) fn string_of(cs: &[char]) -> (r: String)
    ensures
        r@ == cs@,
{
    String::from_iter(cs)
}

/// The characters of `text`, in order.
pub(crate) fn chars_of(text: &str) -> (r: Vec<char>)
    ensures
        r@ == text@,
{
    let n = text.unicode_len();
    let mut out: Vec<char> = Vec::new();
    let mut k: usize = 0;
    while k < n
        invariant
            k <= n,
            n == text@.len(),
            out@ == text@.subrange(0, k as int),
        decreases n - k,
    {
        out.push(text.get_char(k));
        k = k + 1;
        assert(out@ =~= text@.subrange(0, k as int));
    }
    assert(out@ =~= text@);
    out
}

/// `a` comes before `b` in lexicographic order of code points, which is
/// the order of `String`'s `Ord`.
pub open spec fn name_less(a: Seq<char>, b: Seq<char>) -> bool
    decreases a.len(),
{
    if a.len() == 0 {
        b.len() > 0
    } else if b.len() == 0 {
        false
    } else if a[0] != b[0] {
        a[0] < b[0]
    } else {
        name_less(a.drop_first(), b.drop_first())
    }
}

pub proof fn lemma_name_less_irreflexive(a: Seq<char>)
    ensures
        !name_less(a, a),
    decreases a.len(),
{
    if a.len() > 0 {
        lemma_name_less_irreflexive(a.drop_first());
    }
}

pub proof fn lemma_name_less_total(a: Seq<char>, b: Seq<char>)
    ensures
        a == b || name_less(a, b) || name_less(b, a),
    decreases a.len(),
{
    if a.len() > 0 && b.len() > 0 && a[0] == b[0] {
        lemma_name_less_total(a.drop_first(), b.drop_first());
        if a.drop_first() == b.drop_first() {
            assert(a =~= seq![a[0]] + a.drop_first());
            assert(b =~= seq![b[0]] + b.drop_first());
        }
    } else if a.len() == 0 && b.len() == 0 {
        assert(a =~= b);
    }
}

pub proof fn lemma_name_less_transitive(a: Seq<char>, b: Seq<char>, c: Seq<char>)
    requires
        name_less(a, b),
        name_less(b, c),
    ensures
        name_less(a, c),
    decreases a.len(),
{
    if a.len() > 0 && b.len() > 0 && c.len() > 0 && a[0] == b[0] && b[0] == c[0] {
        lemma_name_less_transitive(a.drop_first(), b.drop_first(), c.drop_first());
    }
}

/// Compares two names: negative, zero or positive as `a` comes before, is
/// equal to, or comes after `b`.
pub(crate) fn compare_names(a: &Vec<char>, b: &Vec<char>) -> (r: i8)
    ensures
        r < 0 <==> name_less(a@, b@),
        r == 0 <==> a@ == b@,
        r > 0 <==> name_less(b@, a@),
{
    proof {
        lemma_name_less_irreflexive(a@);
        lemma_name_less_total(a@, b@);
        if name_less(a@, b@) && name_less(b@, a@) {
            lemma_name_less_transitive(a@, b@, a@);
        }
    }
    let mut k: usize = 0;
    assert(a@.subrange(0, a@.len() as int) =~= a@);
    assert(b@.subrange(0, b@.len() as int) =~= b@);
    while k < a.len() && k < b.len() && a[k] == b[k]
        invariant
            k <= a@.len(),
            k <= b@.len(),
            a@.subrange(0, k as int) == b@.subrange(0, k as int),
            name_less(a@, b@) == name_less(a@.subrange(k as int, a@.len() as int), b@.subrange(k as int, b@.len() as int)),
            name_less(b@, a@) == name_less(b@.subrange(k as int, b@.len() as int), a@.subrange(k as int, a@.len() as int)),
        decreases a@.len() - k,
    {
        assert(a@.subrange(k as int, a@.len() as int).drop_first() =~= a@.subrange(k + 1, a@.len() as int));
        assert(b@.subrange(k as int, b@.len() as int).drop_first() =~= b@.subrange(k + 1, b@.len() as int));
        k = k + 1;
        assert(a@.subrange(0, k as int) =~= b@.subrange(0, k as int));
    }
    if k < a.len() && k < b.len() {
        if a[k] < b[k] {
            -1
        } else {
            1
        }
    } else if k < b.len() {
        assert(a@ =~= a@.subrange(0, k as int));
        -1
    } else if k < a.len() {
        assert(b@ =~= b@.subrange(0, k as int));
        1
    } else {
        assert(a@ =~= a@.subrange(0, k as int));
        assert(b@ =~= b@.subrange(0, k as int));
        0
    }
}


/// `a` spells exactly the word `w`.
pub(crate) fn same_text(a: &Vec<char>, w: &[char]) -> (r: bool)
    ensures
        r == (a@ == w@),
{
    if a.len() != w.len() {
        return false;
    }
    let mut k: usize = 0;
    while k < w.len()
        invariant
            k <= w@.len(),
            a@.len() == w@.len(),
            forall|m: int| 0 <= m < k ==> a@[m] == w@[m],
        decreases w@.len() - k,
    {
        if a[k] != w[k] {
            return false;
        }
        k = k + 1;
    }
    assert(a@ =~= w@);
    true
}

} // verus!
