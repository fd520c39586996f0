use vstd::prelude::*;

verus! {

/// Lexicographic order on texts, character by character in code point order;
/// a proper prefix comes first. This is the order of `str`'s `Ord`.
pub open spec fn text_less(a: Seq<char>, b: Seq<char>) -> bool
    decreases a.len(),
{
    if a.len() == 0 {
        b.len() > 0
    } else if b.len() == 0 {
        false
    } else if a[0] != b[0] {
        (a[0] as int) < (b[0] as int)
    } else {
        text_less(a.drop_first(), b.drop_first())
    }
}

/// Each text comes strictly before the ones after it.
pub open spec fn ascending(s: Seq<Seq<char>>) -> bool {
    forall|i: int, j: int| 0 <= i < j < s.len() ==> text_less(#[trigger] s[i], #[trigger] s[j])
}

/// `r` lists every text of `s` exactly once, in ascending order.
pub open spec fn sorted_set_of(r: Seq<Seq<char>>, s: Set<Seq<char>>) -> bool {
    ascending(r) && r.to_set() == s
}

/// The texts that a vector of strings holds.
pub open spec fn texts(v: Seq<String>) -> Seq<Seq<char>> {
    v.map_values(|s: String| s@)
}

pub proof fn lemma_text_less_irreflexive(a: Seq<char>)
    ensures
        !text_less(a, a),
    decreases a.len(),
{
    if a.len() > 0 {
        lemma_text_less_irreflexive(a.drop_first());
    }
}

pub proof fn lemma_text_less_transitive(a: Seq<char>, b: Seq<char>, c: Seq<char>)
    requires
        text_less(a, b),
        text_less(b, c),
    ensures
        text_less(a, c),
    decreases a.len(),
{
    if a.len() > 0 && b.len() > 0 && c.len() > 0 && a[0] == b[0] && b[0] == c[0] {
        lemma_text_less_transitive(a.drop_first(), b.drop_first(), c.drop_first());
    }
}

pub proof fn lemma_text_less_total(a: Seq<char>, b: Seq<char>)
    requires
        a != b,
    ensures
        text_less(a, b) || text_less(b, a),
    decreases a.len(),
{
    if a.len() == 0 && b.len() == 0 {
        assert(a =~= b);
    }
    if a.len() > 0 && b.len() > 0 && a[0] != b[0] {
        assert((a[0] as int) != (b[0] as int));
    }
    if a.len() > 0 && b.len() > 0 && a[0] == b[0] {
        if a.drop_first() == b.drop_first() {
            assert(a.drop_first().len() == a.len() - 1);
            assert(b.drop_first().len() == b.len() - 1);
            assert(a =~= b) by {
                assert forall|i: int| 0 <= i < a.len() implies a[i] == b[i] by {
                    if i > 0 {
                        assert(a[i] == a.drop_first()[i - 1]);
                        assert(b[i] == b.drop_first()[i - 1]);
                    }
                }
            }
        } else {
            lemma_text_less_total(a.drop_first(), b.drop_first());
        }
    }
}

pub proof fn lemma_text_less_asymmetric(a: Seq<char>, b: Seq<char>)
    requires
        text_less(a, b),
    ensures
        !text_less(b, a),
{
    if text_less(b, a) {
        lemma_text_less_transitive(a, b, a);
        lemma_text_less_irreflexive(a);
    }
}

/// An ascending listing of a set is unique: two of them are equal.
pub proof fn lemma_sorted_set_unique(r1: Seq<Seq<char>>, r2: Seq<Seq<char>>, s: Set<Seq<char>>)
    requires
        sorted_set_of(r1, s),
        sorted_set_of(r2, s),
    ensures
        r1 == r2,
    decreases r1.len(),
{
    if r1.len() == 0 || r2.len() == 0 {
        if r1.len() > 0 {
            assert(r1.to_set().contains(r1[0]));
            assert(r2.contains(r1[0]));
        }
        if r2.len() > 0 {
            assert(r2.to_set().contains(r2[0]));
            assert(r1.contains(r2[0]));
        }
        assert(r1 =~= r2);
    } else {
        let a = r1[0];
        let b = r2[0];
        assert(r1.to_set().contains(a));
        assert(r2.contains(a));
        let j = choose|j: int| 0 <= j < r2.len() && r2[j] == a;
        assert(r2.to_set().contains(b));
        assert(r1.contains(b));
        let i = choose|i: int| 0 <= i < r1.len() && r1[i] == b;
        if j > 0 {
            assert(text_less(b, a));
            if i > 0 {
                assert(text_less(a, b));
                lemma_text_less_asymmetric(a, b);
            } else {
                lemma_text_less_irreflexive(a);
            }
        }
        assert(a == b);
        let t1 = r1.drop_first();
        let t2 = r2.drop_first();
        let rest = s.remove(a);
        assert forall|x: Seq<char>| t1.to_set().contains(x) <==> rest.contains(x) by {
            if t1.to_set().contains(x) {
                let k = choose|k: int| 0 <= k < t1.len() && t1[k] == x;
                assert(r1[k + 1] == x);
                assert(text_less(r1[0], r1[k + 1]));
                lemma_text_less_irreflexive(a);
                assert(r1.to_set().contains(x));
            }
            if rest.contains(x) {
                assert(r1.to_set().contains(x));
                let k = choose|k: int| 0 <= k < r1.len() && r1[k] == x;
                assert(k != 0);
                assert(t1[k - 1] == x);
            }
        }
        assert forall|x: Seq<char>| t2.to_set().contains(x) <==> rest.contains(x) by {
            if t2.to_set().contains(x) {
                let k = choose|k: int| 0 <= k < t2.len() && t2[k] == x;
                assert(r2[k + 1] == x);
                assert(text_less(r2[0], r2[k + 1]));
                lemma_text_less_irreflexive(a);
                assert(r2.to_set().contains(x));
            }
            if rest.contains(x) {
                assert(r2.to_set().contains(x));
                let k = choose|k: int| 0 <= k < r2.len() && r2[k] == x;
                assert(k != 0);
                assert(t2[k - 1] == x);
            }
        }
        assert(t1.to_set() =~= rest);
        assert(t2.to_set() =~= rest);
        assert(ascending(t1)) by {
            assert forall|p: int, q: int| 0 <= p < q < t1.len() implies text_less(t1[p], t1[q]) by {
                assert(t1[p] == r1[p + 1] && t1[q] == r1[q + 1]);
            }
        }
        assert(ascending(t2)) by {
            assert forall|p: int, q: int| 0 <= p < q < t2.len() implies text_less(t2[p], t2[q]) by {
                assert(t2[p] == r2[p + 1] && t2[q] == r2[q + 1]);
            }
        }
        lemma_sorted_set_unique(t1, t2, rest);
        assert(r1 =~= r2) by {
            assert forall|k: int| 0 <= k < r1.len() implies r1[k] == r2[k] by {
                if k > 0 {
                    assert(r1[k] == t1[k - 1]);
                    assert(r2[k] == t2[k - 1]);
                }
            }
        }
    }
}

/// Whether `a` comes strictly before `b` in the order of `text_less`.
pub fn text_precedes(a: &str, b: &str) -> (r: bool)
    ensures
        r == text_less(a@, b@),
{
    let la = a.unicode_len();
    let lb = b.unicode_len();
    let mut i: usize = 0;
    assert(a@.subrange(0, la as int) =~= a@);
    assert(b@.subrange(0, lb as int) =~= b@);
    while i < la && i < lb
        invariant
            i <= la,
            i <= lb,
            la == a@.len(),
            lb == b@.len(),
            text_less(a@, b@) == text_less(a@.subrange(i as int, la as int), b@.subrange(i as int, lb as int)),
        decreases la - i,
    {
        let ca = a.get_char(i);
        let cb = b.get_char(i);
        let ghost sa = a@.subrange(i as int, la as int);
        let ghost sb = b@.subrange(i as int, lb as int);
        assert(sa[0] == ca && sb[0] == cb);
        if ca != cb {
            return (ca as u32) < (cb as u32);
        }
        assert(sa.drop_first() =~= a@.subrange(i + 1, la as int));
        assert(sb.drop_first() =~= b@.subrange(i + 1, lb as int));
        i = i + 1;
    }
    i == la && i < lb
}

/// Puts `t` into its place in an ascending vector, unless it is there already.
fn insert_in_order(out: &mut Vec<String>, t: &String)
    requires
        ascending(texts(old(out)@)),
    ensures
        ascending(texts(final(out)@)),
        texts(final(out)@).to_set() == texts(old(out)@).to_set().insert(t@),
{
    let ghost before = texts(out@);
    let mut p: usize = 0;
    loop
        invariant
            out@ == old(out)@,
            p <= out.len(),
            forall|k: int| 0 <= k < p ==> text_less(#[trigger] texts(out@)[k], t@),
        ensures
            out@ == old(out)@,
            p <= out.len(),
            forall|k: int| 0 <= k < p ==> text_less(#[trigger] texts(out@)[k], t@),
            p < out.len() ==> !text_less(texts(out@)[p as int], t@),
        decreases out.len() - p,
    {
        if p == out.len() {
            break;
        }
        if !text_precedes(out[p].as_str(), t.as_str()) {
            break;
        }
        p = p + 1;
    }
    if p < out.len() && out[p] == *t {
        assert(before[p as int] == t@);
        assert(before.to_set().insert(t@) =~= before.to_set());
        return;
    }
    if p < out.len() {
        proof {
            lemma_text_less_total(before[p as int], t@);
        }
    }
    assert(forall|k: int| 0 <= k < p ==> text_less(#[trigger] before[k], t@));
    assert(p < before.len() ==> text_less(t@, before[p as int]));
    out.insert(p, t.clone());
    let ghost after = texts(out@);
    assert(after =~= before.insert(p as int, t@));
    assert(ascending(after)) by {
        assert forall|i: int, j: int| 0 <= i < j < after.len() implies text_less(
            #[trigger] after[i],
            #[trigger] after[j],
        ) by {
            if j < p {
            } else if j == p {
                assert(after[i] == before[i]);
            } else if i < p {
                assert(after[i] == before[i]);
                assert(after[j] == before[j - 1]);
                if j - 1 == p {
                    assert(text_less(before[i], before[p as int]));
                } else {
                    assert(text_less(before[p as int], before[j - 1]));
                    lemma_text_less_transitive(after[i], before[p as int], before[j - 1]);
                }
            } else if i == p {
                assert(after[j] == before[j - 1]);
                if j - 1 > p {
                    assert(text_less(before[p as int], before[j - 1]));
                    lemma_text_less_transitive(t@, before[p as int], before[j - 1]);
                }
            } else {
                assert(after[i] == before[i - 1] && after[j] == before[j - 1]);
            }
        }
    }
    assert(after.to_set() =~= before.to_set().insert(t@)) by {
        assert forall|x: Seq<char>| after.to_set().contains(x) implies before.to_set().insert(
            t@,
        ).contains(x) by {
            let k = choose|k: int| 0 <= k < after.len() && after[k] == x;
            if k < p {
                assert(before[k] == x);
            } else if k > p {
                assert(before[k - 1] == x);
            }
        }
        assert forall|x: Seq<char>| before.to_set().insert(t@).contains(x) implies after.to_set().contains(
            x,
        ) by {
            if x == t@ {
                assert(after[p as int] == x);
            } else {
                let k = choose|k: int| 0 <= k < before.len() && before[k] == x;
                if k < p {
                    assert(after[k] == x);
                } else {
                    assert(after[k + 1] == x);
                }
            }
        }
    }
}

/// The texts of `tags`, each once, in ascending order.
pub fn sorted_unique(tags: &Vec<String>) -> (r: Vec<String>)
    ensures
        sorted_set_of(texts(r@), texts(tags@).to_set()),
{
    let mut out: Vec<String> = Vec::new();
    let mut i: usize = 0;
    while i < tags.len()
        invariant
            i <= tags.len(),
            ascending(texts(out@)),
            texts(out@).to_set() == texts(tags@.subrange(0, i as int)).to_set(),
        decreases tags.len() - i,
    {
        insert_in_order(&mut out, &tags[i]);
        proof {
            let s = texts(tags@.subrange(0, i as int));
            assert(texts(tags@.subrange(0, i + 1)) =~= s.push(tags@[i as int]@));
            s.lemma_push_to_set_commute(tags@[i as int]@);
        }
        i = i + 1;
    }
    assert(tags@.subrange(0, i as int) =~= tags@);
    out
}

/// The character of a decimal digit.
pub open spec fn digit_char(d: nat) -> char {
    if d == 0 {
        '0'
    } else if d == 1 {
        '1'
    } else if d == 2 {
        '2'
    } else if d == 3 {
        '3'
    } else if d == 4 {
        '4'
    } else if d == 5 {
        '5'
    } else if d == 6 {
        '6'
    } else if d == 7 {
        '7'
    } else if d == 8 {
        '8'
    } else {
        '9'
    }
}

/// The decimal digits of `n`, most significant first, without leading zeros.
pub open spec fn decimal(n: nat) -> Seq<char>
    decreases n,
{
    if n < 10 {
        seq![digit_char(n)]
    } else {
        decimal(n / 10) + seq![digit_char(n % 10)]
    }
}

fn digit_text(d: u64) -> (r: &'static str)
    requires
        d < 10,
    ensures
        r@ == seq![digit_char(d as nat)],
{
    proof {
        reveal_strlit("0");
        reveal_strlit("1");
        reveal_strlit("2");
        reveal_strlit("3");
        reveal_strlit("4");
        reveal_strlit("5");
        reveal_strlit("6");
        reveal_strlit("7");
        reveal_strlit("8");
        reveal_strlit("9");
    }
    let r = if d == 0 {
        "0"
    } else if d == 1 {
        "1"
    } else if d == 2 {
        "2"
    } else if d == 3 {
        "3"
    } else if d == 4 {
        "4"
    } else if d == 5 {
        "5"
    } else if d == 6 {
        "6"
    } else if d == 7 {
        "7"
    } else if d == 8 {
        "8"
    } else {
        "9"
    };
    assert(r@ =~= seq![digit_char(d as nat)]);
    r
}

/// Appends the decimal digits of `n` to `out`.
pub fn push_decimal(out: &mut String, n: u64)
    ensures
        final(out)@ == old(out)@ + decimal(n as nat),
    decreases n,
{
    if n >= 10 {
        push_decimal(out, n / 10);
    }
    out.append(digit_text(n % 10));
    assert(out@ =~= old(out)@ + decimal(n as nat));
}

} // verus!
