//! Character-level text model: finding characters, splitting, case-insensitive comparison.
use vstd::prelude::*;

verus! {

/// `i` is the index of the first occurrence of `c` in `s`.
pub open spec fn is_first_char(s: Seq<char>, c: char, i: int) -> bool {
    &&& 0 <= i < s.len()
    &&& s[i] == c
    &&& forall|j: int| 0 <= j < i ==> s[j] != c
}

/// The index of the first occurrence of `c` in `s`, if any.
pub open spec fn find_char(s: Seq<char>, c: char) -> Option<int> {
    if exists|i: int| is_first_char(s, c, i) {
        Some(choose|i: int| is_first_char(s, c, i))
    } else {
        None
    }
}

/// The two-character pattern `a b` stands in `s` at index `i`.
pub open spec fn pair_at(s: Seq<char>, a: char, b: char, i: int) -> bool {
    0 <= i && i + 1 < s.len() && s[i] == a && s[i + 1] == b
}

/// `i` is the index of the first occurrence of the two-character pattern `a b` in `s`.
pub open spec fn is_first_pair(s: Seq<char>, a: char, b: char, i: int) -> bool {
    &&& pair_at(s, a, b, i)
    &&& forall|j: int| 0 <= j < i ==> !#[trigger] pair_at(s, a, b, j)
}

/// The index of the first occurrence of the pattern `a b` in `s`, if any.
pub open spec fn find_pair(s: Seq<char>, a: char, b: char) -> Option<int> {
    if exists|i: int| is_first_pair(s, a, b, i) {
        Some(choose|i: int| is_first_pair(s, a, b, i))
    } else {
        None
    }
}

/// `c` does not occur in `s`.
pub open spec fn no_char(s: Seq<char>, c: char) -> bool {
    forall|i: int| 0 <= i < s.len() ==> s[i] != c
}

/// The pattern `a b` does not occur in `s`.
pub open spec fn no_pair(s: Seq<char>, a: char, b: char) -> bool {
    forall|j: int| !#[trigger] pair_at(s, a, b, j)
}

/// `s` begins with `c`.
pub open spec fn starts_with(s: Seq<char>, c: char) -> bool {
    s.len() > 0 && s[0] == c
}

/// The pieces of `s` between occurrences of `c`, as `str::split` yields them.
pub open spec fn split(s: Seq<char>, c: char) -> Seq<Seq<char>>
    decreases s.len(),
{
    match find_char(s, c) {
        Some(i) => seq![s.take(i)] + split(s.skip(i + 1), c),
        None => seq![s],
    }
}

/// At most `n` pieces of `s` split at the leftmost occurrences of `c`, the last piece holding
/// the rest, as `str::splitn` yields them.
pub open spec fn splitn(s: Seq<char>, n: nat, c: char) -> Seq<Seq<char>>
    decreases s.len(),
{
    if n == 0 {
        seq![]
    } else if n == 1 {
        seq![s]
    } else {
        match find_char(s, c) {
            Some(i) => seq![s.take(i)] + splitn(s.skip(i + 1), (n - 1) as nat, c),
            None => seq![s],
        }
    }
}

/// Whether a piece is nonempty.
pub open spec fn nonempty_pred() -> spec_fn(Seq<char>) -> bool {
    |t: Seq<char>| t.len() > 0
}

/// The nonempty pieces, in order.
pub open spec fn nonempty_pieces(ps: Seq<Seq<char>>) -> Seq<Seq<char>> {
    ps.filter(nonempty_pred())
}

/// Keeping the nonempty pieces of `x` followed by `rest`.
pub proof fn lemma_nonempty_prepend(x: Seq<char>, rest: Seq<Seq<char>>)
    ensures
        nonempty_pieces(seq![x] + rest) == (if x.len() > 0 {
            seq![x]
        } else {
            Seq::<Seq<char>>::empty()
        }) + nonempty_pieces(rest),
{
    rest.lemma_filter_prepend(x, nonempty_pred());
}

/// The pieces joined with `sep` between consecutive ones.
pub open spec fn join(ps: Seq<Seq<char>>, sep: Seq<char>) -> Seq<char>
    decreases ps.len(),
{
    if ps.len() == 0 {
        seq![]
    } else if ps.len() == 1 {
        ps[0]
    } else {
        ps[0] + sep + join(ps.drop_first(), sep)
    }
}

/// Joining one piece more.
pub proof fn lemma_join_push(ps: Seq<Seq<char>>, x: Seq<char>, sep: Seq<char>)
    ensures
        join(ps.push(x), sep) == if ps.len() == 0 {
            x
        } else {
            join(ps, sep) + sep + x
        },
    decreases ps.len(),
{
    if ps.len() == 0 {
        assert(ps.push(x) =~= seq![x]);
    } else if ps.len() == 1 {
        assert(ps.push(x).drop_first() =~= seq![x]);
        assert(join(seq![x], sep) == x);
        assert(ps.push(x)[0] == ps[0]);
        assert(join(ps.push(x), sep) == ps[0] + sep + join(ps.push(x).drop_first(), sep));
    } else if ps.len() > 1 {
        assert(ps.push(x).drop_first() =~= ps.drop_first().push(x));
        lemma_join_push(ps.drop_first(), x, sep);
        assert(join(ps.push(x), sep) =~= join(ps, sep) + sep + x);
    }
}

/// The code of `c` with ASCII upper case letters mapped to lower case.
pub open spec fn ascii_lower_code(c: char) -> u32 {
    if 'A' <= c && c <= 'Z' {
        (c as u32 + 32) as u32
    } else {
        c as u32
    }
}

/// `a` and `b` are equal when ASCII letters are compared without regard to case.
pub open spec fn eq_ignore_ascii_case(a: Seq<char>, b: Seq<char>) -> bool {
    &&& a.len() == b.len()
    &&& forall|i: int| 0 <= i < a.len() ==> ascii_lower_code(a[i]) == ascii_lower_code(b[i])
}

/// A first occurrence is the one `find_char` reports.
pub proof fn lemma_find_char_first(s: Seq<char>, c: char, i: int)
    requires
        is_first_char(s, c, i),
    ensures
        find_char(s, c) == Some(i),
{
    let k = choose|k: int| is_first_char(s, c, k);
    assert(is_first_char(s, c, k));
    if k < i {
        assert(s[k] != c);
    }
    if i < k {
        assert(s[i] != c);
    }
}

/// Without any occurrence `find_char` reports none.
pub proof fn lemma_find_char_none(s: Seq<char>, c: char)
    requires
        forall|j: int| 0 <= j < s.len() ==> s[j] != c,
    ensures
        find_char(s, c) is None,
{
}

/// A first occurrence of a pair is the one `find_pair` reports.
pub proof fn lemma_find_pair_first(s: Seq<char>, a: char, b: char, i: int)
    requires
        is_first_pair(s, a, b, i),
    ensures
        find_pair(s, a, b) == Some(i),
{
    let k = choose|k: int| is_first_pair(s, a, b, k);
    assert(is_first_pair(s, a, b, k));
    if k < i {
        assert(!pair_at(s, a, b, k));
    }
    if i < k {
        assert(!pair_at(s, a, b, i));
    }
}

/// Any occurrence of `c` means `find_char` reports one.
pub proof fn lemma_find_char_complete(s: Seq<char>, c: char, k: int)
    requires
        0 <= k < s.len(),
        s[k] == c,
    ensures
        find_char(s, c) is Some,
    decreases k,
{
    if exists|j: int| 0 <= j < k && s[j] == c {
        let j = choose|j: int| 0 <= j < k && s[j] == c;
        lemma_find_char_complete(s, c, j);
    } else {
        assert(is_first_char(s, c, k));
    }
}

/// Appending text without `c` does not change where `c` is first found.
pub proof fn lemma_find_char_append(x: Seq<char>, y: Seq<char>, c: char)
    requires
        no_char(y, c),
    ensures
        find_char(x + y, c) == find_char(x, c),
{
    let s = x + y;
    match find_char(x, c) {
        Some(i) => {
            assert(is_first_char(x, c, i));
            assert forall|j: int| 0 <= j < i implies s[j] != c by {
                assert(s[j] == x[j]);
            }
            assert(s[i] == x[i]);
            lemma_find_char_first(s, c, i);
        },
        None => {
            assert forall|j: int| 0 <= j < s.len() implies s[j] != c by {
                if j < x.len() {
                    assert(s[j] == x[j]);
                    if x[j] == c {
                        lemma_find_char_complete(x, c, j);
                    }
                } else {
                    assert(s[j] == y[j - x.len()]);
                }
            }
            lemma_find_char_none(s, c);
        },
    }
}

/// Any occurrence of the pattern `a b` means `find_pair` reports one.
pub proof fn lemma_find_pair_complete(s: Seq<char>, a: char, b: char, k: int)
    requires
        pair_at(s, a, b, k),
    ensures
        find_pair(s, a, b) is Some,
    decreases k,
{
    if exists|j: int| 0 <= j < k && pair_at(s, a, b, j) {
        let j = choose|j: int| 0 <= j < k && pair_at(s, a, b, j);
        lemma_find_pair_complete(s, a, b, j);
    } else {
        assert(is_first_pair(s, a, b, k));
    }
}

/// Appending text that holds neither `a` nor `b` does not change where `a b` is first found.
pub proof fn lemma_find_pair_append(x: Seq<char>, y: Seq<char>, a: char, b: char)
    requires
        no_char(y, a),
        no_char(y, b),
    ensures
        find_pair(x + y, a, b) == find_pair(x, a, b),
{
    let s = x + y;
    assert forall|j: int| #[trigger] pair_at(s, a, b, j) implies pair_at(x, a, b, j) by {
        if j + 1 < x.len() {
        } else if j + 1 == x.len() {
            assert(s[j + 1] == y[0]);
        } else {
            assert(s[j] == y[j - x.len()]);
        }
    }
    assert forall|j: int| #[trigger] pair_at(x, a, b, j) implies pair_at(s, a, b, j) by {
        assert(s[j] == x[j] && s[j + 1] == x[j + 1]);
    }
    match find_pair(x, a, b) {
        Some(i) => {
            assert(is_first_pair(x, a, b, i));
            assert(pair_at(s, a, b, i));
            assert forall|j: int| 0 <= j < i implies !#[trigger] pair_at(s, a, b, j) by {
                if pair_at(s, a, b, j) {
                    assert(pair_at(x, a, b, j));
                }
            }
            lemma_find_pair_first(s, a, b, i);
        },
        None => {
            assert forall|j: int| !#[trigger] pair_at(s, a, b, j) by {
                if pair_at(s, a, b, j) {
                    assert(pair_at(x, a, b, j));
                    lemma_find_pair_complete(x, a, b, j);
                }
            }
        },
    }
}

/// Splitting text without the separator gives the text itself.
pub proof fn lemma_split_no_char(s: Seq<char>, n: nat, c: char)
    requires
        no_char(s, c),
        n >= 1,
    ensures
        split(s, c) == seq![s],
        splitn(s, n, c) == seq![s],
{
    lemma_find_char_none(s, c);
}

/// Splitting `x c y` where `x` holds no `c`: `x` is the first piece.
pub proof fn lemma_split_at(x: Seq<char>, y: Seq<char>, n: nat, c: char)
    requires
        no_char(x, c),
        n >= 2,
    ensures
        split(x + seq![c] + y, c) == seq![x] + split(y, c),
        splitn(x + seq![c] + y, n, c) == seq![x] + splitn(y, (n - 1) as nat, c),
{
    let s = x + seq![c] + y;
    assert(is_first_char(s, c, x.len() as int)) by {
        assert forall|j: int| 0 <= j < x.len() implies s[j] != c by {
            assert(s[j] == x[j]);
        }
    }
    lemma_find_char_first(s, c, x.len() as int);
    assert(s.take(x.len() as int) =~= x);
    assert(s.skip(x.len() as int + 1) =~= y);
}

/// Keeping the nonempty pieces of pieces that are all nonempty keeps them all.
pub proof fn lemma_nonempty_all(ps: Seq<Seq<char>>)
    requires
        forall|i: int| 0 <= i < ps.len() ==> #[trigger] ps[i].len() > 0,
    ensures
        nonempty_pieces(ps) == ps,
    decreases ps.len(),
{
    if ps.len() == 0 {
        assert(nonempty_pieces(ps) =~= ps);
    } else {
        let rest = ps.drop_first();
        assert(ps =~= seq![ps[0]] + rest);
        lemma_nonempty_all(rest);
        lemma_nonempty_prepend(ps[0], rest);
    }
}

/// An empty last piece is not kept.
pub proof fn lemma_nonempty_push_empty(ps: Seq<Seq<char>>)
    ensures
        nonempty_pieces(ps.push(Seq::empty())) == nonempty_pieces(ps),
{
    reveal(Seq::filter);
    let q = ps.push(Seq::empty());
    assert(q.drop_last() =~= ps);
    assert(!(nonempty_pred())(q.last()));
}

/// Splitting joined pieces that hold no separator gives the pieces back.
pub proof fn lemma_splitn_join(a: Seq<Seq<char>>, n: nat, c: char)
    requires
        1 <= a.len() <= n,
        forall|i: int| 0 <= i < a.len() ==> #[trigger] no_char(a[i], c),
    ensures
        splitn(join(a, seq![c]), n, c) == a,
        split(join(a, seq![c]), c) == a,
    decreases a.len(),
{
    if a.len() == 1 {
        assert(no_char(a[0], c));
        lemma_split_no_char(a[0], n, c);
        assert(a =~= seq![a[0]]);
    } else {
        let rest = a.drop_first();
        assert(no_char(a[0], c));
        assert forall|i: int| 0 <= i < rest.len() implies #[trigger] no_char(rest[i], c) by {
            assert(no_char(a[i + 1], c));
        }
        lemma_splitn_join(rest, (n - 1) as nat, c);
        lemma_split_at(a[0], join(rest, seq![c]), n, c);
        assert(a[0] + seq![c] + join(rest, seq![c]) == join(a, seq![c]));
        assert(a =~= seq![a[0]] + rest);
    }
}

/// Splitting joined pieces followed by a separator gives the pieces and an empty piece.
pub proof fn lemma_splitn_join_sep(a: Seq<Seq<char>>, n: nat, c: char)
    requires
        1 <= a.len() < n,
        forall|i: int| 0 <= i < a.len() ==> #[trigger] no_char(a[i], c),
    ensures
        splitn(join(a, seq![c]) + seq![c], n, c) == a.push(Seq::empty()),
    decreases a.len(),
{
    if a.len() == 1 {
        assert(no_char(a[0], c));
        assert(join(a, seq![c]) == a[0]);
        lemma_split_at(a[0], Seq::empty(), n, c);
        assert(a[0] + seq![c] + Seq::<char>::empty() =~= a[0] + seq![c]);
        lemma_split_no_char(Seq::empty(), (n - 1) as nat, c);
        assert(a.push(Seq::empty()) =~= seq![a[0]] + seq![Seq::<char>::empty()]);
    } else {
        let rest = a.drop_first();
        assert(no_char(a[0], c));
        assert forall|i: int| 0 <= i < rest.len() implies #[trigger] no_char(rest[i], c) by {
            assert(no_char(a[i + 1], c));
        }
        lemma_splitn_join_sep(rest, (n - 1) as nat, c);
        lemma_split_at(a[0], join(rest, seq![c]) + seq![c], n, c);
        assert(a[0] + seq![c] + (join(rest, seq![c]) + seq![c]) =~= join(a, seq![c]) + seq![c]);
        assert(a.push(Seq::empty()) =~= seq![a[0]] + rest.push(Seq::empty()));
    }
}

/// Text without `a` has no pattern `a b`.
pub proof fn lemma_no_char_no_pair(s: Seq<char>, a: char, b: char)
    requires
        no_char(s, a),
    ensures
        no_pair(s, a, b),
{
    assert forall|j: int| !#[trigger] pair_at(s, a, b, j) by {
        if 0 <= j < s.len() {
            assert(s[j] != a);
        }
    }
}

/// A pattern `a b` in `x y` lies in `x`, in `y`, or across the two.
pub proof fn lemma_no_pair_concat(x: Seq<char>, y: Seq<char>, a: char, b: char)
    requires
        no_pair(x, a, b),
        no_pair(y, a, b),
        !(x.len() > 0 && y.len() > 0 && x[x.len() - 1] == a && y[0] == b),
    ensures
        no_pair(x + y, a, b),
{
    let s = x + y;
    assert forall|j: int| !#[trigger] pair_at(s, a, b, j) by {
        if pair_at(s, a, b, j) {
            if j + 1 < x.len() {
                assert(pair_at(x, a, b, j));
            } else if j >= x.len() {
                assert(pair_at(y, a, b, j - x.len()));
            }
        }
    }
}

/// Without the pattern `a b` there is no first one.
pub proof fn lemma_no_pair_find(s: Seq<char>, a: char, b: char)
    requires
        no_pair(s, a, b),
    ensures
        find_pair(s, a, b) is None,
{
}

/// The characters of `s`, in order.
pub fn chars_of(s: &str) -> (v: Vec<char>)
    ensures
        v@ == s@,
{
    broadcast use vstd::string::group_string_axioms;

    let mut v: Vec<char> = Vec::new();
    for c in it: s.chars()
        invariant
            v@ == it.seq().take(it.index() as int),
            it.seq() == s@,
    {
        v.push(c);
    }
    v
}

/// The characters `v[a..b]` of `s`, as a slice of `s`.
pub fn piece<'a>(s: &'a str, v: &Vec<char>, a: usize, b: usize) -> (r: &'a str)
    requires
        v@ == s@,
        a <= b <= v.len(),
    ensures
        r@ == v@.subrange(a as int, b as int),
{
    s.substring_char(a, b)
}

/// The position of the first `c` in `v[lo..hi]`, counted from the start of `v`.
pub fn find_char_in(v: &Vec<char>, lo: usize, hi: usize, c: char) -> (r: Option<usize>)
    requires
        lo <= hi <= v.len(),
    ensures
        match r {
            Some(k) => lo <= k < hi && find_char(v@.subrange(lo as int, hi as int), c) == Some(
                k - lo,
            ),
            None => find_char(v@.subrange(lo as int, hi as int), c) is None,
        },
        r is None ==> forall|j: int| lo <= j < hi ==> v@[j] != c,
{
    let ghost sub = v@.subrange(lo as int, hi as int);
    let mut k = lo;
    while k < hi
        invariant
            lo <= k <= hi <= v.len(),
            sub == v@.subrange(lo as int, hi as int),
            forall|j: int| lo <= j < k ==> v@[j] != c,
        decreases hi - k,
    {
        if v[k] == c {
            proof {
                assert(is_first_char(sub, c, k - lo));
                lemma_find_char_first(sub, c, k - lo);
            }
            return Some(k);
        }
        k = k + 1;
    }
    proof {
        lemma_find_char_none(sub, c);
    }
    None
}

/// The position of the first pattern `a b` in `v[lo..hi]`, counted from the start of `v`.
pub fn find_pair_in(v: &Vec<char>, lo: usize, hi: usize, a: char, b: char) -> (r: Option<usize>)
    requires
        lo <= hi <= v.len(),
    ensures
        match r {
            Some(k) => lo <= k && k + 1 < hi && find_pair(
                v@.subrange(lo as int, hi as int),
                a,
                b,
            ) == Some(k - lo),
            None => find_pair(v@.subrange(lo as int, hi as int), a, b) is None,
        },
{
    let ghost sub = v@.subrange(lo as int, hi as int);
    let mut k = lo;
    while hi - k > 1
        invariant
            lo <= k <= hi <= v.len(),
            sub == v@.subrange(lo as int, hi as int),
            forall|j: int| 0 <= j < k - lo ==> !#[trigger] pair_at(sub, a, b, j),
        decreases hi - k,
    {
        assert(sub[k - lo] == v@[k as int] && sub[k - lo + 1] == v@[k + 1]);
        if v[k] == a && v[k + 1] == b {
            proof {
                assert(is_first_pair(sub, a, b, k - lo));
                lemma_find_pair_first(sub, a, b, k - lo);
            }
            return Some(k);
        }
        k = k + 1;
    }
    assert forall|i: int| !is_first_pair(sub, a, b, i) by {
        if 0 <= i && i < k - lo {
            assert(!pair_at(sub, a, b, i));
        }
    }
    None
}

/// Exec form of `ascii_lower_code`.
fn lower_code(c: char) -> (r: u32)
    ensures
        r == ascii_lower_code(c),
{
    if 'A' <= c && c <= 'Z' {
        c as u32 + 32
    } else {
        c as u32
    }
}

/// Compares `s` with the characters `t` without regard to ASCII case.
pub fn eq_ignore_ascii_case_chars(s: &Vec<char>, t: &Vec<char>) -> (r: bool)
    ensures
        r == eq_ignore_ascii_case(s@, t@),
{
    if s.len() != t.len() {
        return false;
    }
    let mut i: usize = 0;
    while i < s.len()
        invariant
            s.len() == t.len(),
            i <= s.len(),
            forall|j: int| 0 <= j < i ==> ascii_lower_code(s@[j]) == ascii_lower_code(t@[j]),
        decreases s.len() - i,
    {
        if lower_code(s[i]) != lower_code(t[i]) {
            return false;
        }
        i = i + 1;
    }
    true
}

} // verus!
