use vstd::prelude::*;

verus! {

/// The characters of `s`, in order.
pub fn chars_of(s: &str) -> (res: Vec<char>)
    ensures
        res@ == s@,
{
    let mut res: Vec<char> = Vec::new();
    for c in it: s.chars()
        invariant
            res@ == it.seq().take(it.index() as int),
    {
        res.push(c);
    }
    assert(res@ =~= s@);
    res
}

/// Reads UTF-8 bytes as a `String` (std's `String::from_utf8`): `None`
/// exactly when the bytes are not valid UTF-8.
#[verifier::external_body]
pub fn string_from_utf8(bytes: Vec<u8>) -> (res: Option<String>)
    ensures
        res.is_some() == vstd::utf8::valid_utf8(bytes@),
        res matches Some(s) ==> s@ == vstd::utf8::decode_utf8(bytes@),
{
    String::from_utf8(bytes).ok()
}

/// Collects characters into a `String` (std's `FromIterator<char>` for `String`).
#[verifier::external_body]
pub fn string_from_chars(chars: &Vec<char>) -> (res: String)
    ensures
        res@ == chars@,
{
    chars.iter().collect::<String>()
}

} // verus!

verus! {

/// Whether `c` has Unicode's White_Space property, which is what std's
/// `char::is_whitespace` tests.
pub open spec fn spec_is_whitespace(c: char) -> bool {
    ||| ('\u{9}' <= c && c <= '\u{d}')
    ||| c == ' '
    ||| c == '\u{85}'
    ||| c == '\u{a0}'
    ||| c == '\u{1680}'
    ||| ('\u{2000}' <= c && c <= '\u{200a}')
    ||| c == '\u{2028}'
    ||| c == '\u{2029}'
    ||| c == '\u{202f}'
    ||| c == '\u{205f}'
    ||| c == '\u{3000}'
}

/// `char::is_whitespace`.
pub fn is_whitespace(c: char) -> (res: bool)
    ensures
        res == spec_is_whitespace(c),
{
    ('\u{9}' <= c && c <= '\u{d}') || c == ' ' || c == '\u{85}' || c == '\u{a0}' || c == '\u{1680}'
        || ('\u{2000}' <= c && c <= '\u{200a}') || c == '\u{2028}' || c == '\u{2029}' || c
        == '\u{202f}' || c == '\u{205f}' || c == '\u{3000}'
}

/// Whether `s` holds a whitespace character.
pub open spec fn has_whitespace(s: Seq<char>) -> bool {
    exists|i: int| 0 <= i < s.len() && spec_is_whitespace(#[trigger] s[i])
}

/// Whether `s` holds the character `c`.
pub open spec fn has_char(s: Seq<char>, c: char) -> bool {
    exists|i: int| 0 <= i < s.len() && #[trigger] s[i] == c
}

/// Whether `s` begins with `prefix`.
pub open spec fn spec_starts_with(s: Seq<char>, prefix: Seq<char>) -> bool {
    prefix.len() <= s.len() && s.take(prefix.len() as int) == prefix
}

/// Whether `sub` occurs in `s` at position `i`.
pub open spec fn occurs_at(s: Seq<char>, sub: Seq<char>, i: int) -> bool {
    0 <= i && i + sub.len() <= s.len() && s.subrange(i, i + sub.len()) == sub
}

/// Whether `sub` occurs somewhere in `s`.
pub open spec fn spec_contains(s: Seq<char>, sub: Seq<char>) -> bool {
    exists|i: int| occurs_at(s, sub, i)
}

/// Whether `a` sorts strictly before `b`: the order of std's `Ord` for
/// strings, character by character.
pub open spec fn seq_lt(a: Seq<char>, b: Seq<char>) -> bool
    decreases a.len(),
{
    if a.len() == 0 {
        b.len() > 0
    } else if b.len() == 0 {
        false
    } else if a[0] == b[0] {
        seq_lt(a.drop_first(), b.drop_first())
    } else {
        (a[0] as u32) < (b[0] as u32)
    }
}

/// No string sorts strictly before itself.
pub proof fn lemma_seq_lt_irreflexive(a: Seq<char>)
    ensures
        !seq_lt(a, a),
    decreases a.len(),
{
    if a.len() > 0 {
        lemma_seq_lt_irreflexive(a.drop_first());
    }
}

/// Sorting strictly before is transitive.
pub proof fn lemma_seq_lt_transitive(a: Seq<char>, b: Seq<char>, c: Seq<char>)
    requires
        seq_lt(a, b),
        seq_lt(b, c),
    ensures
        seq_lt(a, c),
    decreases a.len(),
{
    if a.len() > 0 && a[0] == b[0] && b[0] == c[0] {
        lemma_seq_lt_transitive(a.drop_first(), b.drop_first(), c.drop_first());
    }
}

/// Whether `a` sorts no later than `b`.
pub open spec fn seq_le(a: Seq<char>, b: Seq<char>) -> bool {
    a == b || seq_lt(a, b)
}

/// Whether `s` is `c` followed by nothing else but a tail equal to `s.drop_first()`.
pub fn chars_eq(a: &Vec<char>, b: &Vec<char>) -> (res: bool)
    ensures
        res == (a@ == b@),
{
    if a.len() != b.len() {
        return false;
    }
    let mut i: usize = 0;
    while i < a.len()
        invariant
            i <= a.len() == b.len(),
            a@.take(i as int) == b@.take(i as int),
        decreases a.len() - i,
    {
        if a[i] != b[i] {
            assert(a@[i as int] != b@[i as int]);
            return false;
        }
        assert(a@.take(i + 1) =~= a@.take(i as int).push(a@[i as int]));
        assert(b@.take(i + 1) =~= b@.take(i as int).push(b@[i as int]));
        i = i + 1;
    }
    assert(a@.take(i as int) =~= a@);
    assert(b@.take(i as int) =~= b@);
    true
}

/// String equality.
pub fn str_eq(a: &str, b: &str) -> (res: bool)
    ensures
        res == (a@ == b@),
{
    let x = chars_of(a);
    let y = chars_of(b);
    chars_eq(&x, &y)
}

/// Whether `sub` occurs in `s` at position `at`.
pub fn chars_occur_at(s: &Vec<char>, sub: &Vec<char>, at: usize) -> (res: bool)
    requires
        at <= s.len(),
    ensures
        res == occurs_at(s@, sub@, at as int),
{
    if sub.len() > s.len() - at {
        return false;
    }
    let mut i: usize = 0;
    while i < sub.len()
        invariant
            i <= sub.len(),
            at + sub.len() <= s.len(),
            s@.subrange(at as int, at + i) == sub@.take(i as int),
        decreases sub.len() - i,
    {
        if s[at + i] != sub[i] {
            assert(s@.subrange(at as int, at + sub.len())[i as int] != sub@[i as int]);
            return false;
        }
        assert(s@.subrange(at as int, at + i + 1) =~= s@.subrange(at as int, at + i).push(
            s@[at + i],
        ));
        assert(sub@.take(i + 1) =~= sub@.take(i as int).push(sub@[i as int]));
        i = i + 1;
    }
    assert(sub@.take(i as int) =~= sub@);
    true
}

/// `str::starts_with` for a string pattern.
pub fn starts_with(s: &str, prefix: &str) -> (res: bool)
    ensures
        res == spec_starts_with(s@, prefix@),
{
    let x = chars_of(s);
    let p = chars_of(prefix);
    let r = chars_occur_at(&x, &p, 0);
    proof {
        if p@.len() <= x@.len() {
            assert(x@.subrange(0, p@.len() as int) =~= x@.take(p@.len() as int));
        }
    }
    r
}

/// `str::contains` for a string pattern.
pub fn contains(s: &str, sub: &str) -> (res: bool)
    ensures
        res == spec_contains(s@, sub@),
{
    let x = chars_of(s);
    let p = chars_of(sub);
    let mut i: usize = 0;
    loop
        invariant
            i <= x.len(),
            forall|j: int| 0 <= j < i ==> !occurs_at(x@, p@, j),
            x@ == s@,
            p@ == sub@,
        ensures
            forall|j: int| 0 <= j <= x.len() ==> !occurs_at(x@, p@, j),
        decreases x.len() - i,
    {
        if chars_occur_at(&x, &p, i) {
            return true;
        }
        if i == x.len() {
            break;
        }
        i = i + 1;
    }
    assert forall|j: int| !occurs_at(x@, p@, j) by {
        if j > x@.len() {
            assert(j + p@.len() > x@.len());
        }
    }
    false
}

/// Whether `s` holds the character `c`.
pub fn contains_char(s: &str, c: char) -> (res: bool)
    ensures
        res == has_char(s@, c),
{
    let x = chars_of(s);
    let mut i: usize = 0;
    while i < x.len()
        invariant
            x@ == s@,
            forall|j: int| 0 <= j < i ==> x@[j] != c,
        decreases x.len() - i,
    {
        if x[i] == c {
            return true;
        }
        i = i + 1;
    }
    false
}

/// Whether `s` holds a whitespace character (std's
/// `s.contains(char::is_whitespace)`).
pub fn contains_whitespace(s: &str) -> (res: bool)
    ensures
        res == has_whitespace(s@),
{
    let x = chars_of(s);
    let mut i: usize = 0;
    while i < x.len()
        invariant
            x@ == s@,
            forall|j: int| 0 <= j < i ==> !spec_is_whitespace(#[trigger] x@[j]),
        decreases x.len() - i,
    {
        if is_whitespace(x[i]) {
            return true;
        }
        i = i + 1;
    }
    false
}

/// Appends the characters of `b` to `out`.
pub fn push_all(out: &mut Vec<char>, b: &Vec<char>)
    ensures
        final(out)@ == old(out)@ + b@,
{
    let mut i: usize = 0;
    while i < b.len()
        invariant
            i <= b.len(),
            out@ == old(out)@ + b@.take(i as int),
        decreases b.len() - i,
    {
        out.push(b[i]);
        assert(b@.take(i + 1) =~= b@.take(i as int).push(b@[i as int]));
        i = i + 1;
    }
    assert(b@.take(i as int) =~= b@);
}

/// `a` followed by `b`.
pub fn concat(a: &str, b: &str) -> (res: String)
    ensures
        res@ == a@ + b@,
{
    let mut x = chars_of(a);
    let y = chars_of(b);
    push_all(&mut x, &y);
    string_from_chars(&x)
}

/// Whether `a` sorts strictly before `b`.
pub fn chars_lt(a: &Vec<char>, b: &Vec<char>) -> (res: bool)
    ensures
        res == seq_lt(a@, b@),
{
    let mut i: usize = 0;
    assert(a@.skip(0) =~= a@);
    assert(b@.skip(0) =~= b@);
    while i < a.len() && i < b.len()
        invariant
            i <= a.len(),
            i <= b.len(),
            a@.take(i as int) == b@.take(i as int),
            seq_lt(a@, b@) == seq_lt(a@.skip(i as int), b@.skip(i as int)),
        decreases a.len() - i,
    {
        if a[i] != b[i] {
            assert(a@.skip(i as int)[0] == a@[i as int]);
            assert(b@.skip(i as int)[0] == b@[i as int]);
            return (a[i] as u32) < (b[i] as u32);
        }
        assert(a@.skip(i as int).drop_first() =~= a@.skip(i + 1));
        assert(b@.skip(i as int).drop_first() =~= b@.skip(i + 1));
        assert(a@.take(i + 1) =~= a@.take(i as int).push(a@[i as int]));
        assert(b@.take(i + 1) =~= b@.take(i as int).push(b@[i as int]));
        i = i + 1;
    }
    i < b.len()
}

/// Whether string `a` sorts strictly before string `b`.
pub fn str_lt(a: &str, b: &str) -> (res: bool)
    ensures
        res == seq_lt(a@, b@),
{
    let x = chars_of(a);
    let y = chars_of(b);
    chars_lt(&x, &y)
}

} // verus!

verus! {

/// The texts of a sequence of strings.
pub open spec fn views(v: Seq<String>) -> Seq<Seq<char>> {
    v.map_values(|s: String| s@)
}

/// `s`, sorted, with `x` put before the first element it does not sort after.
pub open spec fn insert_sorted(x: Seq<char>, s: Seq<Seq<char>>) -> Seq<Seq<char>>
    decreases s.len(),
{
    if s.len() == 0 {
        seq![x]
    } else if seq_le(x, s[0]) {
        seq![x] + s
    } else {
        seq![s[0]] + insert_sorted(x, s.drop_first())
    }
}

/// The strings of `s` in the order of `seq_lt` (what std's `sort` gives).
pub open spec fn sort_seq(s: Seq<Seq<char>>) -> Seq<Seq<char>>
    decreases s.len(),
{
    if s.len() == 0 {
        s
    } else {
        insert_sorted(s.last(), sort_seq(s.drop_last()))
    }
}

/// `s` with each run of equal neighbours reduced to one (what std's
/// `Vec::dedup` leaves).
pub open spec fn dedup_seq(s: Seq<Seq<char>>) -> Seq<Seq<char>>
    decreases s.len(),
{
    if s.len() <= 1 {
        s
    } else if s[s.len() - 2] == s.last() {
        dedup_seq(s.drop_last())
    } else {
        dedup_seq(s.drop_last()).push(s.last())
    }
}

proof fn lemma_insert_sorted_at(x: Seq<char>, s: Seq<Seq<char>>, j: int)
    requires
        0 <= j <= s.len(),
        forall|k: int| 0 <= k < j ==> !seq_le(x, #[trigger] s[k]),
        j < s.len() ==> seq_le(x, s[j]),
    ensures
        insert_sorted(x, s) == s.take(j) + seq![x] + s.skip(j),
    decreases s.len(),
{
    if s.len() == 0 {
        assert(s.take(j) + seq![x] + s.skip(j) =~= seq![x]);
    } else if j == 0 {
        assert(s.take(j) + seq![x] + s.skip(j) =~= seq![x] + s);
    } else {
        assert(!seq_le(x, s[0]));
        let t = s.drop_first();
        assert forall|k: int| 0 <= k < j - 1 implies !seq_le(x, #[trigger] t[k]) by {
            assert(t[k] == s[k + 1]);
        }
        lemma_insert_sorted_at(x, t, j - 1);
        assert(s.take(j) + seq![x] + s.skip(j) =~= seq![s[0]] + (t.take(j - 1) + seq![x] + t.skip(
            j - 1,
        )));
    }
}

/// Puts `x` into the sorted vector `v` before the first element it does
/// not sort after.
fn insert_sorted_exec(v: &mut Vec<String>, x: String)
    ensures
        views(final(v)@) == insert_sorted(x@, views(old(v)@)),
{
    let xc = chars_of(x.as_str());
    let mut j: usize = 0;
    while j < v.len()
        invariant
            j <= v.len(),
            xc@ == x@,
            v@ == old(v)@,
            forall|k: int| 0 <= k < j ==> !seq_le(x@, #[trigger] views(v@)[k]),
        ensures
            j <= v.len(),
            v@ == old(v)@,
            forall|k: int| 0 <= k < j ==> !seq_le(x@, #[trigger] views(v@)[k]),
            j < v.len() ==> seq_le(x@, views(v@)[j as int]),
        decreases v.len() - j,
    {
        let yc = chars_of(v[j].as_str());
        assert(views(v@)[j as int] == v@[j as int]@);
        if chars_eq(&xc, &yc) || chars_lt(&xc, &yc) {
            break;
        }
        j = j + 1;
    }
    proof {
        lemma_insert_sorted_at(x@, views(v@), j as int);
    }
    let ghost before = v@;
    v.insert(j, x);
    assert(views(v@) =~= views(before).take(j as int) + seq![x@] + views(before).skip(j as int));
}

/// The strings of `v` sorted as std's `sort` sorts them.
pub fn sort_strings(v: Vec<String>) -> (res: Vec<String>)
    ensures
        views(res@) == sort_seq(views(v@)),
{
    let mut res: Vec<String> = Vec::new();
    let mut i: usize = 0;
    while i < v.len()
        invariant
            i <= v.len(),
            views(res@) == sort_seq(views(v@).take(i as int)),
        decreases v.len() - i,
    {
        let x = v[i].clone();
        insert_sorted_exec(&mut res, x);
        assert(views(v@).take(i + 1).drop_last() =~= views(v@).take(i as int));
        i = i + 1;
    }
    assert(views(v@).take(i as int) =~= views(v@));
    res
}

/// `v` with each run of equal neighbours reduced to one (std's `dedup`).
pub fn dedup_strings(v: Vec<String>) -> (res: Vec<String>)
    ensures
        views(res@) == dedup_seq(views(v@)),
{
    let mut res: Vec<String> = Vec::new();
    let mut i: usize = 0;
    while i < v.len()
        invariant
            i <= v.len(),
            views(res@) == dedup_seq(views(v@).take(i as int)),
            i > 0 ==> res@.len() > 0 && views(res@).last() == views(v@)[i - 1],
        decreases v.len() - i,
    {
        let ghost t = views(v@).take(i + 1);
        assert(t.drop_last() =~= views(v@).take(i as int));
        if i > 0 && v[i] == v[i - 1] {
            assert(t[t.len() - 2] == t.last());
        } else {
            let ghost before = res@;
            res.push(v[i].clone());
            assert(views(res@) =~= views(before).push(views(v@)[i as int]));
            if i > 0 {
                assert(t[t.len() - 2] != t.last());
            } else {
                assert(t.len() == 1);
                assert(views(before).len() == 0);
            }
        }
        i = i + 1;
    }
    assert(views(v@).take(i as int) =~= views(v@));
    res
}

} // verus!
