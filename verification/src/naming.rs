use vstd::prelude::*;

verus! {

/// Decimal digit as a character.
pub open spec fn digit_char(d: nat) -> char {
    if d == 0 {
        '0'
    } else if d == 1 {
        '1'
    } else if d == 2 {
        '2'
    } else if d == 3 {
        '3'
    } else if d == 4 {
        '4'
    } else if d == 5 {
        '5'
    } else if d == 6 {
        '6'
    } else if d == 7 {
        '7'
    } else if d == 8 {
        '8'
    } else {
        '9'
    }
}

/// Decimal representation of a natural number, most significant digit first.
pub open spec fn dec_rep(n: nat) -> Seq<char>
    decreases n,
{
    if n < 10 {
        seq![digit_char(n)]
    } else {
        dec_rep(n / 10).push(digit_char(n % 10))
    }
}

/// The name formed by appending the suffix `" #<k>"` to `base`.
pub open spec fn suffixed(base: Seq<char>, k: nat) -> Seq<char> {
    base + seq![' ', '#'] + dec_rep(k)
}

proof fn lemma_digit_char_injective(a: nat, b: nat)
    requires
        a < 10,
        b < 10,
        digit_char(a) == digit_char(b),
    ensures
        a == b,
{
}

proof fn lemma_dec_rep_len(n: nat)
    ensures
        dec_rep(n).len() >= 1,
        n >= 10 ==> dec_rep(n).len() >= 2,
    decreases n,
{
    if n >= 10 {
        lemma_dec_rep_len(n / 10);
    }
}

/// Distinct numbers have distinct decimal representations.
proof fn lemma_dec_rep_injective(a: nat, b: nat)
    requires
        dec_rep(a) == dec_rep(b),
    ensures
        a == b,
    decreases a,
{
    lemma_dec_rep_len(a);
    lemma_dec_rep_len(b);
    if a < 10 && b < 10 {
        assert(dec_rep(a)[0] == digit_char(a));
        assert(dec_rep(b)[0] == digit_char(b));
        lemma_digit_char_injective(a, b);
    } else if a < 10 {
        assert(dec_rep(a).len() == 1);
        assert(dec_rep(b).len() >= 2);
    } else if b < 10 {
        assert(dec_rep(b).len() == 1);
        assert(dec_rep(a).len() >= 2);
    } else {
        assert(dec_rep(a).last() == digit_char(a % 10));
        assert(dec_rep(b).last() == digit_char(b % 10));
        lemma_digit_char_injective(a % 10, b % 10);
        assert(dec_rep(a).drop_last() =~= dec_rep(a / 10));
        assert(dec_rep(b).drop_last() =~= dec_rep(b / 10));
        lemma_dec_rep_injective(a / 10, b / 10);
        assert(a == (a / 10) * 10 + a % 10) by (nonlinear_arith);
        assert(b == (b / 10) * 10 + b % 10) by (nonlinear_arith);
    }
}

/// A suffixed name is strictly longer than its base, so it never equals it.
proof fn lemma_suffixed_ne_base(base: Seq<char>, k: nat)
    ensures
        suffixed(base, k) != base,
        suffixed(base, k).len() > base.len(),
{
    lemma_dec_rep_len(k);
}

/// For a fixed base, distinct suffix numbers give distinct names.
proof fn lemma_suffixed_injective(base: Seq<char>, k1: nat, k2: nat)
    requires
        suffixed(base, k1) == suffixed(base, k2),
    ensures
        k1 == k2,
{
    let p = base.len() + 2;
    let s1 = suffixed(base, k1);
    let s2 = suffixed(base, k2);
    assert(s1.subrange(p as int, s1.len() as int) =~= dec_rep(k1));
    assert(s2.subrange(p as int, s2.len() as int) =~= dec_rep(k2));
    lemma_dec_rep_injective(k1, k2);
}

/// Membership of a string among a vector of names, compared by contents.
pub open spec fn name_views(names: Seq<String>) -> Seq<Seq<char>> {
    names.map_values(|s: String| s@)
}

/// Whether `name` occurs among `names`.
pub fn contains_name(names: &Vec<String>, name: &String) -> (b: bool)
    ensures
        b == name_views(names@).contains(name@),
{
    let n = names.len();
    let mut i: usize = 0;
    while i < n
        invariant
            n == names@.len(),
            0 <= i <= n,
            forall|j: int| 0 <= j < i ==> name_views(names@)[j] != name@,
        decreases n - i,
    {
        if names[i] == *name {
            assert(name_views(names@)[i as int] == name@);
            return true;
        }
        i += 1;
    }
    proof {
        if name_views(names@).contains(name@) {
            let j = choose|j: int|
                0 <= j < name_views(names@).len() && name_views(names@)[j] == name@;
        }
    }
    false
}

/// Append `" #<k>"` to a copy of `base`.
pub(crate) fn make_suffixed(base: &String, k: u64) -> (r: String)
    ensures
        r@ == suffixed(base@, k as nat),
{
    let mut r = base.clone();
    r.append(" #");
    let digits = u64_to_string(k);
    r.append(digits.as_str());
    proof {
        reveal_strlit(" #");
        assert(" #"@ =~= seq![' ', '#']);
        assert(r@ =~= suffixed(base@, k as nat));
    }
    r
}

fn digit_str(d: u64) -> (r: &'static str)
    requires
        d < 10,
    ensures
        r@ == seq![digit_char(d as nat)],
{
    let r = if d == 0 {
        "0"
    } else if d == 1 {
        "1"
    } else if d == 2 {
        "2"
    } else if d == 3 {
        "3"
    } else if d == 4 {
        "4"
    } else if d == 5 {
        "5"
    } else if d == 6 {
        "6"
    } else if d == 7 {
        "7"
    } else if d == 8 {
        "8"
    } else {
        "9"
    };
    proof {
        reveal_strlit("0");
        reveal_strlit("1");
        reveal_strlit("2");
        reveal_strlit("3");
        reveal_strlit("4");
        reveal_strlit("5");
        reveal_strlit("6");
        reveal_strlit("7");
        reveal_strlit("8");
        reveal_strlit("9");
        assert(r@ =~= seq![digit_char(d as nat)]);
    }
    r
}

/// Decimal rendering of `n`.
pub fn u64_to_string(n: u64) -> (s: String)
    ensures
        s@ == dec_rep(n as nat),
    decreases n,
{
    if n < 10 {
        let d = digit_str(n);
        let s = String::from_str(d);
        s
    } else {
        let mut s = u64_to_string(n / 10);
        s.append(digit_str(n % 10));
        proof {
            assert(s@ =~= dec_rep(n as nat));
        }
        s
    }
}

/// Names known to be in use: the candidate itself and every suffixed form
/// below `k`.  They are pairwise distinct.
spec fn probes(base: Seq<char>, k: nat) -> Seq<Seq<char>>
    decreases k,
{
    if k == 0 {
        seq![base]
    } else {
        probes(base, (k - 1) as nat).push(suffixed(base, k))
    }
}

proof fn lemma_probes_len(base: Seq<char>, k: nat)
    ensures
        probes(base, k).len() == k + 1,
    decreases k,
{
    if k > 0 {
        lemma_probes_len(base, (k - 1) as nat);
    }
}

proof fn lemma_probes_index(base: Seq<char>, k: nat, i: int)
    requires
        0 <= i <= k,
    ensures
        probes(base, k)[i] == if i == 0 {
            base
        } else {
            suffixed(base, i as nat)
        },
    decreases k,
{
    lemma_probes_len(base, k);
    if k > 0 {
        lemma_probes_len(base, (k - 1) as nat);
        if i < k {
            lemma_probes_index(base, (k - 1) as nat, i);
        }
    }
}

proof fn lemma_probes_distinct(base: Seq<char>, k: nat)
    ensures
        probes(base, k).no_duplicates(),
    decreases k,
{
    lemma_probes_len(base, k);
    if k == 0 {
    } else {
        lemma_probes_distinct(base, (k - 1) as nat);
        lemma_probes_len(base, (k - 1) as nat);
        assert forall|i: int, j: int|
            0 <= i < probes(base, k).len() && 0 <= j < probes(base, k).len() && i != j implies
            probes(base, k)[i] != probes(base, k)[j] by {
            lemma_probes_index(base, k, i);
            lemma_probes_index(base, k, j);
            if i == 0 {
                lemma_suffixed_ne_base(base, j as nat);
            } else if j == 0 {
                lemma_suffixed_ne_base(base, i as nat);
            } else {
                if probes(base, k)[i] == probes(base, k)[j] {
                    lemma_suffixed_injective(base, i as nat, j as nat);
                }
            }
        }
    }
}

/// Among the suffixes `" #1"` .. `" #m"` over a list of `m` names that also
/// holds the base, some suffixed form must be free: the base and the `m`
/// suffixed forms are `m + 1` pairwise distinct names.
proof fn lemma_free_suffix_exists(names: Seq<Seq<char>>, base: Seq<char>)
    requires
        names.contains(base),
    ensures
        exists|k: nat|
            1 <= k <= names.len() && !names.contains(#[trigger] suffixed(base, k)),
{
    if exists|k: nat| 1 <= k <= names.len() && !names.contains(#[trigger] suffixed(base, k)) {
        return ;
    }
    assert(forall|j: nat| 1 <= j <= names.len() ==> names.contains(#[trigger] suffixed(base, j)));
    let m = names.len();
    let ps = probes(base, m);
    lemma_probes_len(base, m);
    lemma_probes_distinct(base, m);
    ps.unique_seq_to_set();
    names.lemma_cardinality_of_set();
    assert forall|x: Seq<char>| ps.to_set().contains(x) implies names.to_set().contains(x) by {
        let i = choose|i: int| 0 <= i < ps.len() && ps[i] == x;
        lemma_probes_index(base, m, i);
        if i == 0 {
            assert(names.contains(base));
        } else {
            assert(names.contains(suffixed(base, i as nat)));
        }
        let w = choose|w: int| 0 <= w < names.len() && names[w] == x;
        assert(names.to_set().contains(x));
    }
    vstd::set_lib::lemma_len_subset(ps.to_set(), names.to_set());
}

/// Choose a name that does not collide with any of `existing_names`.
///
/// The candidate itself is returned when it is free; otherwise the name
/// `"<candidate> #<k>"` for the smallest `k >= 1` that is free.
pub fn generate_unique_name(existing_names: &Vec<String>, candidate_name: String) -> (r: String)
    ensures
        !name_views(existing_names@).contains(r@),
        !name_views(existing_names@).contains(candidate_name@) ==> r@ == candidate_name@,
        r@ == candidate_name@ || exists|k: nat|
            1 <= k && r@ == suffixed(candidate_name@, k) && forall|j: nat|
                1 <= j < k ==> name_views(existing_names@).contains(
                    #[trigger] suffixed(candidate_name@, j),
                ),
{
    if !contains_name(existing_names, &candidate_name) {
        return candidate_name;
    }
    let m = existing_names.len();
    let mut i: usize = 0;
    while i < m
        invariant
            m == existing_names@.len(),
            0 <= i <= m,
            name_views(existing_names@).contains(candidate_name@),
            forall|j: nat|
                1 <= j <= i ==> name_views(existing_names@).contains(
                    #[trigger] suffixed(candidate_name@, j),
                ),
        decreases m - i,
    {
        let k = (i as u64) + 1;
        let name = make_suffixed(&candidate_name, k);
        if !contains_name(existing_names, &name) {
            return name;
        }
        i += 1;
    }
    proof {
        lemma_free_suffix_exists(name_views(existing_names@), candidate_name@);
    }
    candidate_name
}

} // verus!
