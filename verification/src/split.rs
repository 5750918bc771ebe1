use vstd::prelude::*;
use crate::text::{chars_of, is_whitespace, spec_is_whitespace, string_from_chars, views};

verus! {

/// The pieces of `s` between the occurrences of `sep` (std's `split` with
/// a character): always at least one, empty pieces included.
pub open spec fn split_on(s: Seq<char>, sep: char) -> Seq<Seq<char>>
    decreases s.len(),
{
    if s.len() == 0 {
        seq![Seq::empty()]
    } else {
        let pieces = split_on(s.drop_last(), sep);
        if s.last() == sep {
            pieces.push(Seq::empty())
        } else {
            pieces.update(pieces.len() - 1, pieces.last().push(s.last()))
        }
    }
}

/// Splitting gives at least one piece.
pub proof fn lemma_split_on_len(s: Seq<char>, sep: char)
    ensures
        split_on(s, sep).len() >= 1,
    decreases s.len(),
{
    if s.len() > 0 {
        lemma_split_on_len(s.drop_last(), sep);
    }
}

/// The pieces of `s` between occurrences of `sep`.
pub fn split_char(s: &str, sep: char) -> (res: Vec<String>)
    ensures
        views(res@) == split_on(s@, sep),
{
    let cs = chars_of(s);
    let mut pieces: Vec<String> = Vec::new();
    let mut cur: Vec<char> = Vec::new();
    let mut i: usize = 0;
    assert(s@.take(0) =~= Seq::<char>::empty());
    assert(views(pieces@).push(cur@) =~= split_on(s@.take(0), sep));
    while i < cs.len()
        invariant
            i <= cs.len(),
            cs@ == s@,
            views(pieces@).push(cur@) == split_on(s@.take(i as int), sep),
        decreases cs.len() - i,
    {
        assert(s@.take(i + 1).drop_last() =~= s@.take(i as int));
        assert(s@.take(i + 1).last() == cs@[i as int]);
        let c = cs[i];
        let ghost before = views(pieces@).push(cur@);
        if c == sep {
            let piece = string_from_chars(&cur);
            pieces.push(piece);
            cur = Vec::new();
            assert(views(pieces@).push(cur@) =~= before.push(Seq::<char>::empty()));
        } else {
            let ghost prev_pieces = views(pieces@);
            cur.push(c);
            assert(views(pieces@).push(cur@) =~= before.update(before.len() - 1, before.last().push(c)));
        }
        i = i + 1;
    }
    assert(s@.take(i as int) =~= s@);
    let last = string_from_chars(&cur);
    let ghost before = views(pieces@);
    pieces.push(last);
    assert(views(pieces@) =~= before.push(cur@));
    pieces
}

/// The pieces of `parts` joined with `sep` between them (std's `join`).
pub open spec fn join(parts: Seq<Seq<char>>, sep: Seq<char>) -> Seq<char>
    decreases parts.len(),
{
    if parts.len() == 0 {
        Seq::empty()
    } else if parts.len() == 1 {
        parts[0]
    } else {
        join(parts.drop_last(), sep) + sep + parts.last()
    }
}

/// The strings of `parts` joined with `sep` between them.
pub fn join_strings(parts: &[String], sep: &str) -> (res: String)
    ensures
        res@ == join(views(parts@), sep@),
{
    let sep_chars = chars_of(sep);
    let mut out: Vec<char> = Vec::new();
    let mut i: usize = 0;
    assert(views(parts@).take(0) =~= Seq::<Seq<char>>::empty());
    while i < parts.len()
        invariant
            i <= parts.len(),
            sep_chars@ == sep@,
            out@ == join(views(parts@).take(i as int), sep@),
        decreases parts.len() - i,
    {
        let ghost prev = views(parts@).take(i as int);
        assert(views(parts@).take(i + 1).drop_last() =~= prev);
        assert(views(parts@).take(i + 1).last() == parts@[i as int]@);
        if i > 0 {
            crate::text::push_all(&mut out, &sep_chars);
        }
        let piece = chars_of(parts[i].as_str());
        crate::text::push_all(&mut out, &piece);
        proof {
            if i == 0 {
                assert(views(parts@).take(1) =~= seq![parts@[0]@]);
                assert(out@ =~= parts@[0]@);
            }
        }
        i = i + 1;
    }
    assert(views(parts@).take(i as int) =~= views(parts@));
    string_from_chars(&out)
}

/// The pieces of `s` between whitespace characters, empty pieces included.
pub open spec fn split_ws(s: Seq<char>) -> Seq<Seq<char>>
    decreases s.len(),
{
    if s.len() == 0 {
        seq![Seq::empty()]
    } else {
        let pieces = split_ws(s.drop_last());
        if spec_is_whitespace(s.last()) {
            pieces.push(Seq::empty())
        } else {
            pieces.update(pieces.len() - 1, pieces.last().push(s.last()))
        }
    }
}

/// The pieces of `ps` that are not empty, in order.
pub open spec fn nonempty(ps: Seq<Seq<char>>) -> Seq<Seq<char>>
    decreases ps.len(),
{
    if ps.len() == 0 {
        Seq::empty()
    } else if ps.last().len() == 0 {
        nonempty(ps.drop_last())
    } else {
        nonempty(ps.drop_last()).push(ps.last())
    }
}

/// The words of `s` (std's `split_whitespace`) joined with single spaces.
pub open spec fn collapse_ws(s: Seq<char>) -> Seq<char> {
    join(nonempty(split_ws(s)), seq![' '])
}

/// Appending a non-empty word to the words joined so far.
proof fn lemma_join_push(ws: Seq<Seq<char>>, w: Seq<char>, sep: Seq<char>)
    ensures
        join(ws.push(w), sep) == if ws.len() == 0 { w } else { join(ws, sep) + sep + w },
{
    assert(ws.push(w).drop_last() =~= ws);
    if ws.len() == 0 {
        assert(ws.push(w)[0] == w);
    }
}

/// The words of `s` joined with single spaces.
pub fn collapse_whitespace(s: &Vec<char>) -> (res: Vec<char>)
    ensures
        res@ == collapse_ws(s@),
{
    let mut out: Vec<char> = Vec::new();
    let mut cur: Vec<char> = Vec::new();
    let ghost mut pieces: Seq<Seq<char>> = Seq::empty();
    let ghost mut words: Seq<Seq<char>> = Seq::empty();
    let mut i: usize = 0;
    assert(s@.take(0) =~= Seq::<char>::empty());
    assert(split_ws(s@.take(0)) =~= pieces.push(cur@));
    while i < s.len()
        invariant
            i <= s.len(),
            split_ws(s@.take(i as int)) == pieces.push(cur@),
            words == nonempty(pieces),
            out@ == join(words, seq![' ']),
            (words.len() == 0) == (out@.len() == 0),
        decreases s.len() - i,
    {
        assert(s@.take(i + 1).drop_last() =~= s@.take(i as int));
        assert(s@.take(i + 1).last() == s@[i as int]);
        let c = s[i];
        if is_whitespace(c) {
            proof {
                assert(pieces.push(cur@).drop_last() =~= pieces);
            }
            if cur.len() > 0 {
                if out.len() > 0 {
                    out.push(' ');
                }
                let ghost before = out@;
                crate::text::push_all(&mut out, &cur);
                proof {
                    lemma_join_push(words, cur@, seq![' ']);
                    if words.len() > 0 {
                        assert(out@ =~= join(words, seq![' ']) + seq![' '] + cur@);
                    }
                    words = words.push(cur@);
                }
            }
            proof {
                pieces = pieces.push(cur@);
            }
            cur = Vec::new();
            assert(split_ws(s@.take(i + 1)) =~= pieces.push(cur@));
        } else {
            let ghost before = pieces.push(cur@);
            cur.push(c);
            assert(split_ws(s@.take(i + 1)) =~= pieces.push(cur@)) by {
                assert(before.update(before.len() - 1, before.last().push(c)) =~= pieces.push(cur@));
            }
        }
        i = i + 1;
    }
    assert(s@.take(i as int) =~= s@);
    proof {
        assert(pieces.push(cur@).drop_last() =~= pieces);
    }
    if cur.len() > 0 {
        if out.len() > 0 {
            out.push(' ');
        }
        crate::text::push_all(&mut out, &cur);
        proof {
            lemma_join_push(words, cur@, seq![' ']);
            if words.len() > 0 {
                assert(out@ =~= join(words, seq![' ']) + seq![' '] + cur@);
            }
        }
    }
    out
}

/// `s` without its leading whitespace (std's `trim_start`).
pub open spec fn trim_start(s: Seq<char>) -> Seq<char>
    decreases s.len(),
{
    if s.len() > 0 && spec_is_whitespace(s[0]) {
        trim_start(s.drop_first())
    } else {
        s
    }
}

/// `s` without its trailing whitespace (std's `trim_end`).
pub open spec fn trim_end(s: Seq<char>) -> Seq<char>
    decreases s.len(),
{
    if s.len() > 0 && spec_is_whitespace(s.last()) {
        trim_end(s.drop_last())
    } else {
        s
    }
}

/// `s` without leading and trailing whitespace (std's `trim`).
pub open spec fn trim(s: Seq<char>) -> Seq<char> {
    trim_end(trim_start(s))
}

/// `s[from..to]` as a new vector.
pub fn char_range(s: &Vec<char>, from: usize, to: usize) -> (res: Vec<char>)
    requires
        from <= to <= s@.len(),
    ensures
        res@ == s@.subrange(from as int, to as int),
{
    let mut res: Vec<char> = Vec::new();
    let mut i: usize = from;
    while i < to
        invariant
            from <= i <= to <= s@.len(),
            res@ == s@.subrange(from as int, i as int),
        decreases to - i,
    {
        res.push(s[i]);
        assert(s@.subrange(from as int, i + 1) =~= s@.subrange(from as int, i as int).push(s@[i as int]));
        i = i + 1;
    }
    res
}

/// `s` without its leading whitespace.
pub fn trim_start_chars(s: &Vec<char>) -> (res: Vec<char>)
    ensures
        res@ == trim_start(s@),
{
    let mut i: usize = 0;
    assert(s@.skip(0) =~= s@);
    while i < s.len() && is_whitespace(s[i])
        invariant
            i <= s.len(),
            trim_start(s@) == trim_start(s@.skip(i as int)),
        decreases s.len() - i,
    {
        assert(s@.skip(i as int)[0] == s@[i as int]);
        assert(s@.skip(i as int).drop_first() =~= s@.skip(i + 1));
        i = i + 1;
    }
    proof {
        if i < s.len() {
            assert(s@.skip(i as int)[0] == s@[i as int]);
        }
    }
    let res = char_range(s, i, s.len());
    assert(res@ =~= s@.skip(i as int));
    res
}

/// `s` without leading and trailing whitespace.
pub fn trim_chars(s: &Vec<char>) -> (res: Vec<char>)
    ensures
        res@ == trim(s@),
{
    let t = trim_start_chars(s);
    let mut j: usize = t.len();
    assert(t@.take(j as int) =~= t@);
    while j > 0 && is_whitespace(t[j - 1])
        invariant
            j <= t.len(),
            trim_end(t@) == trim_end(t@.take(j as int)),
        decreases j,
    {
        assert(t@.take(j as int).last() == t@[j - 1]);
        assert(t@.take(j as int).drop_last() =~= t@.take(j - 1));
        j = j - 1;
    }
    proof {
        if j > 0 {
            assert(t@.take(j as int).last() == t@[j - 1]);
        }
    }
    let res = char_range(&t, 0, j);
    assert(res@ =~= t@.take(j as int));
    res
}

/// Whether `i` is the first position of `c` in `s`.
pub open spec fn is_first(s: Seq<char>, c: char, i: int) -> bool {
    0 <= i < s.len() && s[i] == c && forall|j: int| 0 <= j < i ==> s[j] != c
}

/// `s` cut at the first `c` into what comes before and after it (std's
/// `split_once` with a character); `None` when `c` does not occur.
pub open spec fn split_once(s: Seq<char>, c: char) -> Option<(Seq<char>, Seq<char>)> {
    if exists|i: int| is_first(s, c, i) {
        let i = choose|i: int| is_first(s, c, i);
        Some((s.take(i), s.skip(i + 1)))
    } else {
        None
    }
}

/// `s` cut at the first `c`.
pub fn split_once_chars(s: &Vec<char>, c: char) -> (res: Option<(Vec<char>, Vec<char>)>)
    ensures
        match split_once(s@, c) {
            Some((a, b)) => res matches Some((x, y)) && x@ == a && y@ == b,
            None => res is None,
        },
{
    let mut i: usize = 0;
    while i < s.len()
        invariant
            i <= s.len(),
            forall|j: int| 0 <= j < i ==> s@[j] != c,
        decreases s.len() - i,
    {
        if s[i] == c {
            assert(is_first(s@, c, i as int));
            proof {
                let k = choose|k: int| is_first(s@, c, k);
                assert(k == i) by {
                    if k < i {
                        assert(s@[k] != c);
                    } else if k > i {
                        assert(s@[i as int] != c);
                    }
                }
            }
            let a = char_range(s, 0, i);
            let b = char_range(s, i + 1, s.len());
            assert(a@ =~= s@.take(i as int));
            assert(b@ =~= s@.skip(i + 1));
            return Some((a, b));
        }
        i = i + 1;
    }
    assert(!exists|k: int| is_first(s@, c, k)) by {
        if exists|k: int| is_first(s@, c, k) {
            let k = choose|k: int| is_first(s@, c, k);
            assert(s@[k] != c);
        }
    }
    None
}

} // verus!
