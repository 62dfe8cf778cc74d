use vstd::prelude::*;

verus! {

/// The characters the library trims around keys and values (the ASCII
/// whitespace range).
pub open spec fn is_blank_char(c: char) -> bool {
    c == ' ' || c == '\t' || c == '\r' || c == '\n' || c == '\u{b}' || c == '\u{c}'
}

/// Index of the first occurrence of `c` in `s`, or `s.len()` if absent.
pub open spec fn find_char(s: Seq<char>, c: char) -> int
    decreases s.len(),
{
    if s.len() == 0 {
        0
    } else if s[0] == c {
        0
    } else {
        1 + find_char(s.drop_first(), c)
    }
}

pub proof fn lemma_find_char(s: Seq<char>, c: char)
    ensures
        0 <= find_char(s, c) <= s.len(),
        find_char(s, c) < s.len() ==> s[find_char(s, c)] == c,
        forall|j: int| 0 <= j < find_char(s, c) ==> s[j] != c,
    decreases s.len(),
{
    if s.len() == 0 {
    } else if s[0] == c {
    } else {
        lemma_find_char(s.drop_first(), c);
        assert forall|j: int| 0 <= j < find_char(s, c) implies s[j] != c by {
            if j > 0 {
                assert(s.drop_first()[j - 1] != c);
            }
        }
    }
}

/// `find_char` is pinned by the first-occurrence property.
pub proof fn lemma_find_char_is(s: Seq<char>, c: char, k: int)
    requires
        0 <= k <= s.len(),
        forall|j: int| 0 <= j < k ==> s[j] != c,
        k < s.len() ==> s[k] == c,
    ensures
        find_char(s, c) == k,
{
    lemma_find_char(s, c);
    let f = find_char(s, c);
    if f < k {
        assert(s[f] == c);
        assert(s[f] != c);
    }
    if k < f {
        assert(s[k] != c);
    }
}

/// The lines of `s`, split on `'\n'`; the separators are not kept, and a
/// trailing separator yields a final empty line.
pub open spec fn split_lines(s: Seq<char>) -> Seq<Seq<char>>
    decreases s.len(),
{
    let i = find_char(s, '\n');
    if 0 <= i < s.len() {
        seq![s.take(i)] + split_lines(s.skip(i + 1))
    } else {
        seq![s]
    }
}

/// The inverse of `split_lines`: the given lines joined with `'\n'`.
pub open spec fn join_lines(ls: Seq<Seq<char>>) -> Seq<char>
    decreases ls.len(),
{
    if ls.len() == 0 {
        Seq::empty()
    } else if ls.len() == 1 {
        ls[0]
    } else {
        ls[0] + seq!['\n'] + join_lines(ls.drop_first())
    }
}

pub proof fn lemma_split_lines_len(s: Seq<char>)
    ensures
        split_lines(s).len() >= 1,
    decreases s.len(),
{
    let i = find_char(s, '\n');
    if 0 <= i < s.len() {
        lemma_find_char(s, '\n');
        lemma_split_lines_len(s.skip(i + 1));
    }
}

/// No line produced by `split_lines` contains the separator.
pub proof fn lemma_split_lines_no_newline(s: Seq<char>)
    ensures
        forall|k: int, j: int|
            0 <= k < split_lines(s).len() && 0 <= j < split_lines(s)[k].len() ==> split_lines(
                s,
            )[k][j] != '\n',
    decreases s.len(),
{
    lemma_find_char(s, '\n');
    let i = find_char(s, '\n');
    if 0 <= i < s.len() {
        lemma_split_lines_no_newline(s.skip(i + 1));
        assert forall|k: int, j: int|
            0 <= k < split_lines(s).len() && 0 <= j < split_lines(s)[k].len() implies split_lines(
            s,
        )[k][j] != '\n' by {
            if k == 0 {
                assert(split_lines(s)[0] == s.take(i));
                assert(s.take(i)[j] == s[j]);
            } else {
                assert(split_lines(s)[k] == split_lines(s.skip(i + 1))[k - 1]);
            }
        }
    } else {
        assert forall|k: int, j: int|
            0 <= k < split_lines(s).len() && 0 <= j < split_lines(s)[k].len() implies split_lines(
            s,
        )[k][j] != '\n' by {
            assert(split_lines(s)[k] == s);
            assert(s[j] != '\n');
        }
    }
}

/// Splitting and joining are inverse: joining the lines of `s` gives `s`
/// back.
pub proof fn lemma_join_split(s: Seq<char>)
    ensures
        join_lines(split_lines(s)) == s,
    decreases s.len(),
{
    lemma_find_char(s, '\n');
    let i = find_char(s, '\n');
    if 0 <= i < s.len() {
        lemma_join_split(s.skip(i + 1));
        lemma_split_lines_len(s.skip(i + 1));
        let ls = split_lines(s);
        assert(ls.drop_first() =~= split_lines(s.skip(i + 1)));
        if split_lines(s.skip(i + 1)).len() >= 1 {
            assert(join_lines(ls) == s.take(i) + seq!['\n'] + join_lines(ls.drop_first()));
            assert(join_lines(ls) =~= s);
        }
    } else {
        assert(join_lines(split_lines(s)) == s);
    }
}

/// Joining and splitting are inverse for any non-empty line sequence whose
/// lines are free of the separator.
pub proof fn lemma_split_join(ls: Seq<Seq<char>>)
    requires
        ls.len() >= 1,
        forall|k: int, j: int| 0 <= k < ls.len() && 0 <= j < ls[k].len() ==> ls[k][j] != '\n',
    ensures
        split_lines(join_lines(ls)) == ls,
    decreases ls.len(),
{
    let s = join_lines(ls);
    if ls.len() == 1 {
        assert(s == ls[0]);
        lemma_find_char_is(s, '\n', s.len() as int);
        assert(split_lines(s) =~= ls);
    } else {
        let head = ls[0];
        let rest = join_lines(ls.drop_first());
        assert(s == head + seq!['\n'] + rest);
        lemma_split_join(ls.drop_first());
        lemma_find_char_is(s, '\n', head.len() as int);
        let i = find_char(s, '\n');
        assert(i == head.len());
        assert(0 <= i < s.len());
        assert(s.take(i) =~= head);
        assert(s.skip(i + 1) =~= rest);
        assert(split_lines(s) =~= seq![head] + split_lines(rest));
        assert(split_lines(s) =~= ls);
    }
}

pub open spec fn trim_front(s: Seq<char>) -> Seq<char>
    decreases s.len(),
{
    if s.len() > 0 && is_blank_char(s[0]) {
        trim_front(s.drop_first())
    } else {
        s
    }
}

pub open spec fn trim_back(s: Seq<char>) -> Seq<char>
    decreases s.len(),
{
    if s.len() > 0 && is_blank_char(s[s.len() - 1]) {
        trim_back(s.drop_last())
    } else {
        s
    }
}

/// `s` with leading and trailing blank characters removed.
pub open spec fn trim_spec(s: Seq<char>) -> Seq<char> {
    trim_back(trim_front(s))
}

pub proof fn lemma_trim_front_skip(s: Seq<char>, a: int)
    requires
        0 <= a <= s.len(),
        forall|j: int| 0 <= j < a ==> is_blank_char(s[j]),
        a < s.len() ==> !is_blank_char(s[a]),
    ensures
        trim_front(s) == s.skip(a),
    decreases a,
{
    if a == 0 {
        if s.len() > 0 && is_blank_char(s[0]) {
            assert(!is_blank_char(s[0]));
        }
        assert(s.skip(0) =~= s);
    } else {
        assert(is_blank_char(s[0]));
        lemma_trim_front_skip(s.drop_first(), a - 1);
        assert(s.drop_first().skip(a - 1) =~= s.skip(a));
    }
}

pub proof fn lemma_trim_back_take(s: Seq<char>, b: int)
    requires
        0 <= b <= s.len(),
        forall|j: int| b <= j < s.len() ==> is_blank_char(s[j]),
        b > 0 ==> !is_blank_char(s[b - 1]),
    ensures
        trim_back(s) == s.take(b),
    decreases s.len() - b,
{
    if b == s.len() {
        if s.len() > 0 && is_blank_char(s[s.len() - 1]) {
            assert(!is_blank_char(s[b - 1]));
        }
        assert(s.take(b) =~= s);
    } else {
        assert(is_blank_char(s[s.len() - 1]));
        lemma_trim_back_take(s.drop_last(), b);
        assert(s.drop_last().take(b) =~= s.take(b));
    }
}

/// A key/value line split at its first colon, both sides trimmed; `None`
/// for a line without a colon.
pub open spec fn line_to_pair(l: Seq<char>) -> Option<(Seq<char>, Seq<char>)> {
    let i = find_char(l, ':');
    if 0 <= i < l.len() {
        Some((trim_spec(l.take(i)), trim_spec(l.skip(i + 1))))
    } else {
        None
    }
}

/// The key/value pairs of a block of lines, in order; lines without a
/// colon are skipped.
pub open spec fn pairs_of_lines(ls: Seq<Seq<char>>) -> Seq<(Seq<char>, Seq<char>)>
    decreases ls.len(),
{
    if ls.len() == 0 {
        Seq::empty()
    } else {
        let rest = pairs_of_lines(ls.drop_first());
        match line_to_pair(ls[0]) {
            Some(p) => seq![p] + rest,
            None => rest,
        }
    }
}

pub proof fn lemma_pairs_of_lines_push(ls: Seq<Seq<char>>, l: Seq<char>)
    ensures
        pairs_of_lines(ls.push(l)) == match line_to_pair(l) {
            Some(p) => pairs_of_lines(ls).push(p),
            None => pairs_of_lines(ls),
        },
    decreases ls.len(),
{
    if ls.len() == 0 {
        assert(ls.push(l).drop_first() =~= Seq::<Seq<char>>::empty());
        assert(ls.push(l)[0] == l);
        assert(pairs_of_lines(Seq::<Seq<char>>::empty()) =~= Seq::<(Seq<char>, Seq<char>)>::empty());
        match line_to_pair(l) {
            Some(p) => {
                assert(pairs_of_lines(ls.push(l)) =~= seq![p] + pairs_of_lines(
                    ls.push(l).drop_first(),
                ));
                assert(pairs_of_lines(ls.push(l)) =~= pairs_of_lines(ls).push(p));
            },
            None => {
                assert(pairs_of_lines(ls.push(l)) =~= pairs_of_lines(ls.push(l).drop_first()));
                assert(pairs_of_lines(ls.push(l)) =~= pairs_of_lines(ls));
            },
        }
    } else {
        lemma_pairs_of_lines_push(ls.drop_first(), l);
        assert(ls.push(l).drop_first() =~= ls.drop_first().push(l));
        assert(ls.push(l)[0] == ls[0]);
        match line_to_pair(l) {
            Some(p) => {
                match line_to_pair(ls[0]) {
                    Some(q) => {
                        assert(pairs_of_lines(ls.push(l)) =~= pairs_of_lines(ls).push(p));
                    },
                    None => {
                        assert(pairs_of_lines(ls.push(l)) =~= pairs_of_lines(ls).push(p));
                    },
                }
            },
            None => {
                match line_to_pair(ls[0]) {
                    Some(q) => {
                        assert(pairs_of_lines(ls.push(l)) =~= pairs_of_lines(ls));
                    },
                    None => {
                        assert(pairs_of_lines(ls.push(l)) =~= pairs_of_lines(ls));
                    },
                }
            },
        }
    }
}

/// The value of the last pair carrying `key`, or `None`; later pairs
/// override earlier ones, as collecting into a map would.
pub open spec fn lookup_last(ps: Seq<(Seq<char>, Seq<char>)>, key: Seq<char>) -> Option<Seq<char>>
    decreases ps.len(),
{
    if ps.len() == 0 {
        None
    } else if ps.last().0 == key {
        Some(ps.last().1)
    } else {
        lookup_last(ps.drop_last(), key)
    }
}

pub proof fn lemma_join_lines_push(ls: Seq<Seq<char>>, x: Seq<char>)
    ensures
        join_lines(ls.push(x)) == if ls.len() == 0 {
            x
        } else {
            join_lines(ls) + seq!['\n'] + x
        },
    decreases ls.len(),
{
    if ls.len() == 0 {
        assert(ls.push(x).len() == 1);
        assert(ls.push(x)[0] == x);
    } else if ls.len() == 1 {
        assert(ls.push(x)[0] == ls[0]);
        assert(ls.push(x).drop_first() =~= seq![x]);
        assert(join_lines(seq![x]) == x);
    } else {
        lemma_join_lines_push(ls.drop_first(), x);
        assert(ls.push(x).drop_first() =~= ls.drop_first().push(x));
        assert(ls.push(x)[0] == ls[0]);
        assert(join_lines(ls.push(x)) == ls[0] + seq!['\n'] + join_lines(ls.drop_first().push(x)));
        assert(join_lines(ls.push(x)) =~= join_lines(ls) + seq!['\n'] + x);
    }
}

/// The views of a vector of owned lines.
pub open spec fn lines_view(ls: Seq<String>) -> Seq<Seq<char>> {
    ls.map_values(|l: String| l@)
}

/// The views of a vector of owned key/value pairs.
pub open spec fn pairs_view(ps: Seq<(String, String)>) -> Seq<(Seq<char>, Seq<char>)> {
    ps.map_values(|p: (String, String)| (p.0@, p.1@))
}

fn is_blank_at(s: &str, i: usize) -> (b: bool)
    requires
        i < s@.len(),
    ensures
        b == is_blank_char(s@[i as int]),
{
    let c = s.get_char(i);
    c == ' ' || c == '\t' || c == '\r' || c == '\n' || c == '\u{b}' || c == '\u{c}'
}

/// The index of the first occurrence of `c` in `s`, or the length of `s`
/// if `c` does not occur.
pub fn find_char_exec(s: &str, c: char) -> (r: usize)
    ensures
        r as int == find_char(s@, c),
        r <= s@.len(),
{
    let n: usize = s.unicode_len();
    let mut i: usize = 0;
    while i < n
        invariant
            0 <= i <= n,
            n == s@.len(),
            forall|j: int| 0 <= j < i ==> s@[j] != c,
        decreases n - i,
    {
        if s.get_char(i) == c {
            proof {
                lemma_find_char_is(s@, c, i as int);
            }
            return i;
        }
        i += 1;
    }
    proof {
        lemma_find_char_is(s@, c, n as int);
    }
    n
}

/// The lines of `s`, split on the newline character.
pub fn split_lines_exec(s: &str) -> (r: Vec<String>)
    ensures
        lines_view(r@) == split_lines(s@),
        r@.len() >= 1,
{
    let n: usize = s.unicode_len();
    let mut lines: Vec<String> = Vec::new();
    let mut start: usize = 0;
    let mut i: usize = 0;
    proof {
        assert(s@.skip(0) =~= s@);
        assert(lines_view(lines@) + split_lines(s@) =~= split_lines(s@));
    }
    while i < n
        invariant
            0 <= start <= i <= n,
            n == s@.len(),
            split_lines(s@) == lines_view(lines@) + split_lines(s@.skip(start as int)),
            forall|j: int| start <= j < i ==> s@[j] != '\n',
        decreases n - i,
    {
        if s.get_char(i) == '\n' {
            let piece = s.substring_char(start, i);
            let ghost old_lines = lines@;
            lines.push(String::from_str(piece));
            proof {
                let rem = s@.skip(start as int);
                assert forall|j: int| 0 <= j < i - start implies rem[j] != '\n' by {
                    assert(rem[j] == s@[start + j]);
                }
                assert(rem[i - start] == s@[i as int]);
                lemma_find_char_is(rem, '\n', i - start);
                assert(rem.take(i - start) =~= s@.subrange(start as int, i as int));
                assert(rem.skip(i - start + 1) =~= s@.skip(i + 1));
                assert(split_lines(rem) == seq![piece@] + split_lines(s@.skip(i + 1)));
                assert(lines_view(lines@) =~= lines_view(old_lines).push(piece@));
                assert(lines_view(old_lines) + split_lines(rem) =~= lines_view(lines@)
                    + split_lines(s@.skip(i + 1)));
            }
            start = i + 1;
        }
        i += 1;
    }
    let piece = s.substring_char(start, n);
    let ghost old_lines = lines@;
    lines.push(String::from_str(piece));
    proof {
        let rem = s@.skip(start as int);
        assert forall|j: int| 0 <= j < rem.len() implies rem[j] != '\n' by {
            assert(rem[j] == s@[start + j]);
        }
        lemma_find_char_is(rem, '\n', rem.len() as int);
        assert(rem =~= s@.subrange(start as int, n as int));
        assert(split_lines(rem) == seq![piece@]);
        assert(lines_view(lines@) =~= lines_view(old_lines).push(piece@));
        assert(lines_view(old_lines) + split_lines(rem) =~= lines_view(lines@));
    }
    lines
}

/// `s` with leading and trailing blank characters removed.
pub fn trim_exec(s: &str) -> (r: String)
    ensures
        r@ == trim_spec(s@),
{
    let n: usize = s.unicode_len();
    let mut a: usize = 0;
    while a < n && is_blank_at(s, a)
        invariant
            0 <= a <= n,
            n == s@.len(),
            forall|j: int| 0 <= j < a ==> is_blank_char(s@[j]),
        decreases n - a,
    {
        a += 1;
    }
    let mut b: usize = n;
    while b > a && is_blank_at(s, b - 1)
        invariant
            a <= b <= n,
            n == s@.len(),
            forall|j: int| b <= j < n ==> is_blank_char(s@[j]),
        decreases b,
    {
        b -= 1;
    }
    let piece = s.substring_char(a, b);
    proof {
        lemma_trim_front_skip(s@, a as int);
        let rem = s@.skip(a as int);
        assert forall|j: int| b - a <= j < rem.len() implies is_blank_char(rem[j]) by {
            assert(rem[j] == s@[a + j]);
        }
        if b > a {
            assert(rem[b - a - 1] == s@[b - 1]);
        }
        lemma_trim_back_take(rem, b - a);
        assert(rem.take(b - a) =~= s@.subrange(a as int, b as int));
    }
    String::from_str(piece)
}

/// The key/value pair carried by one line, split at the first colon and
/// trimmed, or `None` for a line without a colon.
pub fn line_pair_exec(l: &str) -> (r: Option<(String, String)>)
    ensures
        match r {
            Some(p) => line_to_pair(l@) == Some((p.0@, p.1@)),
            None => line_to_pair(l@) is None,
        },
{
    let n: usize = l.unicode_len();
    let i = find_char_exec(l, ':');
    if i < n {
        let key = trim_exec(l.substring_char(0, i));
        let value = trim_exec(l.substring_char(i + 1, n));
        proof {
            assert(l@.subrange(0, i as int) =~= l@.take(i as int));
            assert(l@.subrange(i + 1, n as int) =~= l@.skip(i + 1));
        }
        Some((key, value))
    } else {
        None
    }
}

/// The value of the last pair carrying `key`, or `None`.
pub fn lookup_exec(ps: &Vec<(String, String)>, key: &String) -> (r: Option<String>)
    ensures
        match r {
            Some(v) => lookup_last(pairs_view(ps@), key@) == Some(v@),
            None => lookup_last(pairs_view(ps@), key@) is None,
        },
{
    let mut cur: Option<String> = None;
    let mut i: usize = 0;
    proof {
        assert(pairs_view(ps@.take(0)) =~= Seq::empty());
    }
    while i < ps.len()
        invariant
            0 <= i <= ps@.len(),
            match cur {
                Some(v) => lookup_last(pairs_view(ps@.take(i as int)), key@) == Some(v@),
                None => lookup_last(pairs_view(ps@.take(i as int)), key@) is None,
            },
        decreases ps@.len() - i,
    {
        proof {
            let pv = pairs_view(ps@.take(i + 1));
            assert(pv.len() == i + 1);
            assert(pv.last() == (ps@[i as int].0@, ps@[i as int].1@));
            assert(pv.drop_last() =~= pairs_view(ps@.take(i as int)));
        }
        if ps[i].0 == *key {
            cur = Some(ps[i].1.clone());
        }
        i += 1;
    }
    proof {
        assert(ps@.take(i as int) =~= ps@);
    }
    cur
}

/// The given lines from index `from` on, joined with the newline
/// character.
pub fn join_from(lines: &Vec<String>, from: usize) -> (r: String)
    requires
        from as int <= lines@.len(),
    ensures
        r@ == join_lines(lines_view(lines@).skip(from as int)),
{
    if from >= lines.len() {
        proof {
            assert(lines_view(lines@).skip(from as int) =~= Seq::empty());
        }
        return String::new();
    }
    let mut r = lines[from].clone();
    let mut i: usize = from + 1;
    proof {
        let lv = lines_view(lines@);
        assert(lv.subrange(from as int, from + 1) =~= seq![lines@[from as int]@]);
    }
    while i < lines.len()
        invariant
            from < i <= lines@.len(),
            r@ == join_lines(lines_view(lines@).subrange(from as int, i as int)),
        decreases lines@.len() - i,
    {
        let ghost lv = lines_view(lines@);
        let ghost pre = lv.subrange(from as int, i as int);
        r.append("\n");
        r.append(lines[i].as_str());
        proof {
            reveal_strlit("\n");
            assert("\n"@ =~= seq!['\n']);
            lemma_join_lines_push(pre, lv[i as int]);
            assert(pre.push(lv[i as int]) =~= lv.subrange(from as int, i + 1));
            assert(pre.len() > 0);
            assert(r@ == join_lines(pre) + seq!['\n'] + lv[i as int]);
        }
        i += 1;
    }
    proof {
        assert(lines_view(lines@).subrange(from as int, lines@.len() as int) =~= lines_view(
            lines@,
        ).skip(from as int));
    }
    r
}

} // verus!
