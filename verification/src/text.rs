//! Character-level text handling: searching, splitting into lines and
//! words, and building strings.
use vstd::prelude::*;

verus! {

// ---------------------------------------------------------------------------
// Searching
// ---------------------------------------------------------------------------

/// `p` occurs in `s` starting at position `i`.
pub open spec fn matches_at(s: Seq<char>, p: Seq<char>, i: int) -> bool {
    &&& 0 <= i
    &&& i + p.len() <= s.len()
    &&& s.subrange(i, i + p.len()) == p
}

/// `s` begins with `p`.
pub open spec fn starts_with(s: Seq<char>, p: Seq<char>) -> bool {
    matches_at(s, p, 0)
}

/// `p` occurs somewhere in `s`.
pub open spec fn contains(s: Seq<char>, p: Seq<char>) -> bool {
    exists|i: int| matches_at(s, p, i)
}

/// The first position at or after `from` where `p` occurs in `s`.
pub open spec fn find_from(s: Seq<char>, p: Seq<char>, from: int) -> Option<int>
    decreases s.len() + 1 - from,
{
    if from < 0 || from + p.len() > s.len() {
        None
    } else if matches_at(s, p, from) {
        Some(from)
    } else {
        find_from(s, p, from + 1)
    }
}

/// The position of the last `c` in `s`.
pub open spec fn last_index_of(s: Seq<char>, c: char) -> Option<int>
    decreases s.len(),
{
    if s.len() == 0 {
        None
    } else if s.last() == c {
        Some(s.len() - 1)
    } else {
        last_index_of(s.drop_last(), c)
    }
}

/// What `find_from` returns is an occurrence, and there is none before it.
pub proof fn lemma_find_from(s: Seq<char>, p: Seq<char>, from: int)
    requires
        0 <= from,
    ensures
        find_from(s, p, from) matches Some(i) ==> from <= i && matches_at(s, p, i) && forall|j: int|
            from <= j < i ==> !matches_at(s, p, j),
        find_from(s, p, from) is None ==> forall|j: int| from <= j ==> !matches_at(s, p, j),
    decreases s.len() + 1 - from,
{
    if from + p.len() > s.len() {
    } else if matches_at(s, p, from) {
    } else {
        lemma_find_from(s, p, from + 1);
        assert forall|j: int| from <= j && !(from + 1 <= j) implies !matches_at(s, p, j) by {
            assert(j == from);
        }
    }
}

/// Whether `p` occurs in `s` at position `i`.
pub fn matches_at_exec(s: &Vec<char>, p: &Vec<char>, i: usize) -> (res: bool)
    ensures
        res == matches_at(s@, p@, i as int),
{
    if i > s.len() || p.len() > s.len() - i {
        return false;
    }
    let mut k: usize = 0;
    while k < p.len()
        invariant
            i + p.len() <= s.len(),
            k <= p.len(),
            forall|m: int| 0 <= m < k ==> s@[i + m] == p@[m],
        decreases p.len() - k,
    {
        if s[i + k] != p[k] {
            proof {
                assert(s@.subrange(i as int, i + p.len())[k as int] != p@[k as int]);
            }
            return false;
        }
        k = k + 1;
    }
    assert(s@.subrange(i as int, i + p.len()) =~= p@);
    true
}

/// The first position at or after `from` where `p` occurs in `s`.
pub fn find_from_exec(s: &Vec<char>, p: &Vec<char>, from: usize) -> (res: Option<usize>)
    ensures
        match res {
            Some(i) => find_from(s@, p@, from as int) == Some(i as int) && i + p.len() <= s.len(),
            None => find_from(s@, p@, from as int) is None,
        },
{
    if from > s.len() || p.len() > s.len() - from {
        return None;
    }
    let last = s.len() - p.len();
    let mut i = from;
    loop
        invariant
            from <= i <= last,
            last == s.len() - p.len(),
            find_from(s@, p@, from as int) == find_from(s@, p@, i as int),
        decreases last - i,
    {
        if matches_at_exec(s, p, i) {
            return Some(i);
        }
        if i == last {
            assert(find_from(s@, p@, i + 1) is None);
            return None;
        }
        i = i + 1;
    }
}

/// Whether `p` occurs anywhere in `s`.
pub fn contains_exec(s: &Vec<char>, p: &Vec<char>) -> (res: bool)
    ensures
        res == contains(s@, p@),
{
    proof {
        lemma_find_from(s@, p@, 0);
    }
    match find_from_exec(s, p, 0) {
        Some(_) => true,
        None => false,
    }
}

/// Whether `s` begins with `p`.
pub fn starts_with_exec(s: &Vec<char>, p: &Vec<char>) -> (res: bool)
    ensures
        res == starts_with(s@, p@),
{
    matches_at_exec(s, p, 0)
}

/// The position of the last `c` in `s`.
pub fn last_index_of_exec(s: &Vec<char>, c: char) -> (res: Option<usize>)
    ensures
        match res {
            Some(i) => last_index_of(s@, c) == Some(i as int) && i < s.len(),
            None => last_index_of(s@, c) is None,
        },
{
    let mut n = s.len();
    assert(s@.take(n as int) =~= s@);
    while n > 0
        invariant
            n <= s.len(),
            last_index_of(s@, c) == last_index_of(s@.take(n as int), c),
        decreases n,
    {
        assert(s@.take(n as int).drop_last() =~= s@.take(n - 1));
        if s[n - 1] == c {
            return Some(n - 1);
        }
        n = n - 1;
    }
    None
}

// ---------------------------------------------------------------------------
// Lines and words
// ---------------------------------------------------------------------------

/// `line` without one trailing carriage return.
pub open spec fn strip_cr(line: Seq<char>) -> Seq<char> {
    if line.len() > 0 && line.last() == '\r' {
        line.drop_last()
    } else {
        line
    }
}

/// Reading `s` from the left: the lines already ended by a `'\n'`, and the
/// characters of the line still open.
pub open spec fn lines_scan(s: Seq<char>) -> (Seq<Seq<char>>, Seq<char>)
    decreases s.len(),
{
    if s.len() == 0 {
        (seq![], seq![])
    } else {
        let (done, cur) = lines_scan(s.drop_last());
        if s.last() == '\n' {
            (done.push(strip_cr(cur)), seq![])
        } else {
            (done, cur.push(s.last()))
        }
    }
}

/// The lines of `s` as `str::lines` gives them: split at `'\n'`, a `'\r'`
/// just before a `'\n'` dropped, and no empty line after a final line ending.
pub open spec fn lines(s: Seq<char>) -> Seq<Seq<char>> {
    let (done, cur) = lines_scan(s);
    if cur.len() == 0 {
        done
    } else {
        done.push(cur)
    }
}

/// `c` has the Unicode `White_Space` property.
pub open spec fn is_whitespace(c: char) -> bool {
    let u = c as u32;
    ||| 0x9 <= u <= 0xd
    ||| u == 0x20
    ||| u == 0x85
    ||| u == 0xa0
    ||| u == 0x1680
    ||| 0x2000 <= u <= 0x200a
    ||| u == 0x2028
    ||| u == 0x2029
    ||| u == 0x202f
    ||| u == 0x205f
    ||| u == 0x3000
}

/// Whether `c` has the Unicode `White_Space` property.
pub fn is_whitespace_exec(c: char) -> (res: bool)
    ensures
        res == is_whitespace(c),
{
    let u = c as u32;
    (0x9 <= u && u <= 0xd) || u == 0x20 || u == 0x85 || u == 0xa0 || u == 0x1680 || (0x2000 <= u
        && u <= 0x200a) || u == 0x2028 || u == 0x2029 || u == 0x202f || u == 0x205f || u == 0x3000
}

/// Reading `s` from the left: the words already ended by whitespace, and the
/// characters of the word still open.
pub open spec fn words_scan(s: Seq<char>) -> (Seq<Seq<char>>, Seq<char>)
    decreases s.len(),
{
    if s.len() == 0 {
        (seq![], seq![])
    } else {
        let (done, cur) = words_scan(s.drop_last());
        if is_whitespace(s.last()) {
            (if cur.len() > 0 {
                done.push(cur)
            } else {
                done
            }, seq![])
        } else {
            (done, cur.push(s.last()))
        }
    }
}

/// The words of `s` as `str::split_whitespace` gives them: the maximal runs
/// of characters that are not whitespace.
pub open spec fn words(s: Seq<char>) -> Seq<Seq<char>> {
    let (done, cur) = words_scan(s);
    if cur.len() > 0 {
        done.push(cur)
    } else {
        done
    }
}

proof fn lemma_words_scan_clean(s: Seq<char>)
    ensures
        forall|i: int|
            0 <= i < words_scan(s).0.len() ==> (#[trigger] words_scan(s).0[i]).len() > 0 && forall|
                j: int,
            |
                0 <= j < words_scan(s).0[i].len() ==> !is_whitespace(#[trigger] words_scan(s).0[i][j]),
        forall|j: int|
            0 <= j < words_scan(s).1.len() ==> !is_whitespace(#[trigger] words_scan(s).1[j]),
    decreases s.len(),
{
    if s.len() > 0 {
        lemma_words_scan_clean(s.drop_last());
        let (done, cur) = words_scan(s.drop_last());
        let c = s.last();
        if is_whitespace(c) {
            if cur.len() > 0 {
                let d2 = done.push(cur);
                assert forall|i: int| 0 <= i < d2.len() implies (#[trigger] d2[i]).len() > 0
                    && forall|j: int| 0 <= j < d2[i].len() ==> !is_whitespace(#[trigger] d2[i][j]) by {
                    if i < done.len() {
                        assert(d2[i] == done[i]);
                    }
                }
            }
        } else {
            let c2 = cur.push(c);
            assert forall|j: int| 0 <= j < c2.len() implies !is_whitespace(#[trigger] c2[j]) by {
                if j < cur.len() {
                    assert(c2[j] == cur[j]);
                }
            }
        }
    }
}

/// No word is empty, and no word holds whitespace.
pub proof fn lemma_words_clean(s: Seq<char>)
    ensures
        forall|i: int|
            0 <= i < words(s).len() ==> (#[trigger] words(s)[i]).len() > 0 && forall|j: int|
                0 <= j < words(s)[i].len() ==> !is_whitespace(#[trigger] words(s)[i][j]),
{
    lemma_words_scan_clean(s);
    let (done, cur) = words_scan(s);
    if cur.len() > 0 {
        let w = done.push(cur);
        assert forall|i: int| 0 <= i < w.len() implies (#[trigger] w[i]).len() > 0 && forall|j: int|
            0 <= j < w[i].len() ==> !is_whitespace(#[trigger] w[i][j]) by {
            if i < done.len() {
                assert(w[i] == done[i]);
            }
        }
    }
}

proof fn lemma_lines_scan_clean(s: Seq<char>)
    ensures
        forall|i: int, j: int|
            0 <= i < lines_scan(s).0.len() && 0 <= j < lines_scan(s).0[i].len() ==> #[trigger] lines_scan(
                s,
            ).0[i][j] != '\n',
        forall|j: int| 0 <= j < lines_scan(s).1.len() ==> #[trigger] lines_scan(s).1[j] != '\n',
    decreases s.len(),
{
    if s.len() > 0 {
        lemma_lines_scan_clean(s.drop_last());
        let (done, cur) = lines_scan(s.drop_last());
        if s.last() == '\n' {
            let l = strip_cr(cur);
            assert forall|j: int| 0 <= j < l.len() implies l[j] != '\n' by {
                assert(l[j] == cur[j]);
            }
        }
    }
}

/// No line holds a line feed.
pub proof fn lemma_lines_clean(s: Seq<char>)
    ensures
        forall|i: int, j: int|
            0 <= i < lines(s).len() && 0 <= j < lines(s)[i].len() ==> #[trigger] lines(s)[i][j]
                != '\n',
{
    lemma_lines_scan_clean(s);
}

proof fn lemma_lines_scan_after_newline(a: Seq<char>, b: Seq<char>)
    ensures
        lines_scan(a.push('\n') + b) == (
            lines_scan(a).0.push(strip_cr(lines_scan(a).1)) + lines_scan(b).0,
            lines_scan(b).1,
        ),
    decreases b.len(),
{
    let x = lines_scan(a).0.push(strip_cr(lines_scan(a).1));
    if b.len() == 0 {
        assert(a.push('\n') + b =~= a.push('\n'));
        assert(a.push('\n').drop_last() =~= a);
        assert(x + lines_scan(b).0 =~= x);
    } else {
        lemma_lines_scan_after_newline(a, b.drop_last());
        assert((a.push('\n') + b).drop_last() =~= a.push('\n') + b.drop_last());
        let (db, cb) = lines_scan(b.drop_last());
        assert((x + db).push(strip_cr(cb)) =~= x + db.push(strip_cr(cb)));
    }
}

proof fn lemma_lines_scan_no_newline(s: Seq<char>)
    requires
        forall|j: int| 0 <= j < s.len() ==> s[j] != '\n',
    ensures
        lines_scan(s) == (Seq::<Seq<char>>::empty(), s),
    decreases s.len(),
{
    if s.len() > 0 {
        lemma_lines_scan_no_newline(s.drop_last());
        assert(s.drop_last().push(s.last()) =~= s);
    }
}

/// The lines of a text: none when it is empty; the text itself when it holds
/// no line feed; else the text before the first line feed (without a
/// carriage return at its end), followed by the lines of the rest.
pub proof fn lemma_lines_split(s: Seq<char>)
    ensures
        (forall|j: int| 0 <= j < s.len() ==> s[j] != '\n') ==> lines(s) == if s.len() == 0 {
            Seq::<Seq<char>>::empty()
        } else {
            seq![s]
        },
        forall|i: int|
            0 <= i < s.len() && s[i] == '\n' && (forall|j: int| 0 <= j < i ==> s[j] != '\n')
                ==> lines(s) == seq![strip_cr(s.take(i))] + lines(s.skip(i + 1)),
{
    if forall|j: int| 0 <= j < s.len() ==> s[j] != '\n' {
        lemma_lines_scan_no_newline(s);
    }
    assert forall|i: int|
        0 <= i < s.len() && s[i] == '\n' && (forall|j: int| 0 <= j < i ==> s[j] != '\n')
            implies lines(s) == seq![strip_cr(s.take(i))] + lines(s.skip(i + 1)) by {
        let a = s.take(i);
        let b = s.skip(i + 1);
        assert(s =~= a.push('\n') + b);
        lemma_lines_scan_no_newline(a);
        lemma_lines_scan_after_newline(a, b);
        let (db, cb) = lines_scan(b);
        assert(Seq::<Seq<char>>::empty().push(strip_cr(a)) =~= seq![strip_cr(a)]);
        if cb.len() > 0 {
            assert((seq![strip_cr(a)] + db).push(cb) =~= seq![strip_cr(a)] + db.push(cb));
        }
    }
}

proof fn lemma_words_scan_after_space(a: Seq<char>, w: char, b: Seq<char>)
    requires
        is_whitespace(w),
    ensures
        words_scan(a.push(w) + b) == (words(a) + words_scan(b).0, words_scan(b).1),
    decreases b.len(),
{
    if b.len() == 0 {
        assert(a.push(w) + b =~= a.push(w));
        assert(a.push(w).drop_last() =~= a);
        assert(words(a) + words_scan(b).0 =~= words(a));
    } else {
        lemma_words_scan_after_space(a, w, b.drop_last());
        assert((a.push(w) + b).drop_last() =~= a.push(w) + b.drop_last());
        let (db, cb) = words_scan(b.drop_last());
        assert((words(a) + db).push(cb) =~= words(a) + db.push(cb));
    }
}

/// Whitespace separates words: the words of `a`, a whitespace character and
/// `b` are the words of `a` followed by the words of `b`.
pub proof fn lemma_words_split(a: Seq<char>, w: char, b: Seq<char>)
    requires
        is_whitespace(w),
    ensures
        words(a.push(w) + b) == words(a) + words(b),
{
    lemma_words_scan_after_space(a, w, b);
    let (db, cb) = words_scan(b);
    if cb.len() > 0 {
        assert((words(a) + db).push(cb) =~= words(a) + db.push(cb));
    }
}

proof fn lemma_words_scan_no_space(s: Seq<char>)
    requires
        forall|j: int| 0 <= j < s.len() ==> !is_whitespace(s[j]),
    ensures
        words_scan(s) == (Seq::<Seq<char>>::empty(), s),
    decreases s.len(),
{
    if s.len() > 0 {
        lemma_words_scan_no_space(s.drop_last());
        assert(s.drop_last().push(s.last()) =~= s);
    }
}

/// A non-empty text without whitespace is a single word.
pub proof fn lemma_single_word(s: Seq<char>)
    requires
        s.len() > 0,
        forall|j: int| 0 <= j < s.len() ==> !is_whitespace(s[j]),
    ensures
        words(s) == seq![s],
{
    lemma_words_scan_no_space(s);
    assert(Seq::<Seq<char>>::empty().push(s) =~= seq![s]);
}

/// The text made of `ls`, each line followed by a line feed.
pub open spec fn joined_lines(ls: Seq<Seq<char>>) -> Seq<char>
    decreases ls.len(),
{
    if ls.len() == 0 {
        seq![]
    } else {
        ls[0].push('\n') + joined_lines(ls.drop_first())
    }
}

/// Writing one more line appends it and its line feed.
pub proof fn lemma_joined_push(ls: Seq<Seq<char>>, l: Seq<char>)
    ensures
        joined_lines(ls.push(l)) == joined_lines(ls) + l.push('\n'),
    decreases ls.len(),
{
    if ls.len() == 0 {
        assert(ls.push(l).drop_first() =~= Seq::<Seq<char>>::empty());
        assert(ls.push(l)[0] == l);
        assert(joined_lines(Seq::<Seq<char>>::empty()) =~= Seq::<char>::empty());
        assert(joined_lines(ls.push(l)) =~= l.push('\n'));
    } else {
        lemma_joined_push(ls.drop_first(), l);
        assert(ls.push(l).drop_first() =~= ls.drop_first().push(l));
        assert(ls.push(l)[0] == ls[0]);
        assert(joined_lines(ls.push(l)) =~= joined_lines(ls) + l.push('\n'));
    }
}

/// A line that `lines` gives back unchanged: no line feed in it and no
/// carriage return at its end.
pub open spec fn plain_line(l: Seq<char>) -> bool {
    &&& forall|j: int| 0 <= j < l.len() ==> l[j] != '\n'
    &&& !(l.len() > 0 && l.last() == '\r')
}

/// A line ended by a line feed, then more text: that line (without a
/// carriage return at its end) comes first, then the lines of the rest.
pub proof fn lemma_lines_after_line(l: Seq<char>, rest: Seq<char>)
    requires
        forall|j: int| 0 <= j < l.len() ==> l[j] != '\n',
    ensures
        lines(l.push('\n') + rest) == seq![strip_cr(l)] + lines(rest),
{
    lemma_lines_scan_no_newline(l);
    lemma_lines_scan_after_newline(l, rest);
    let (db, cb) = lines_scan(rest);
    assert(Seq::<Seq<char>>::empty().push(strip_cr(l)) =~= seq![strip_cr(l)]);
    if cb.len() > 0 {
        assert((seq![strip_cr(l)] + db).push(cb) =~= seq![strip_cr(l)] + db.push(cb));
    }
}

/// A text that is empty or ends with a line feed, then more text: the lines
/// of the whole are the lines of the first part followed by those of the
/// second.
pub proof fn lemma_lines_concat(a: Seq<char>, b: Seq<char>)
    requires
        a.len() == 0 || a.last() == '\n',
    ensures
        lines(a + b) == lines(a) + lines(b),
{
    if a.len() == 0 {
        assert(a + b =~= b);
        assert(lines(a) =~= Seq::<Seq<char>>::empty());
        assert(lines(a) + lines(b) =~= lines(b));
    } else {
        let a0 = a.drop_last();
        assert(a0.push('\n') =~= a);
        lemma_lines_scan_after_newline(a0, b);
        lemma_lines_scan_after_newline(a0, Seq::<char>::empty());
        assert(a0.push('\n') + Seq::<char>::empty() =~= a);
        let x = lines_scan(a0).0.push(strip_cr(lines_scan(a0).1));
        assert(x + lines_scan(Seq::<char>::empty()).0 =~= x);
        assert(lines(a) == x);
        let (db, cb) = lines_scan(b);
        if cb.len() > 0 {
            assert((x + db).push(cb) =~= x + db.push(cb));
        }
    }
}

/// Reading back the lines of a text written line by line gives the lines.
pub proof fn lemma_lines_of_joined(ls: Seq<Seq<char>>)
    requires
        forall|k: int| 0 <= k < ls.len() ==> plain_line(#[trigger] ls[k]),
    ensures
        lines(joined_lines(ls)) == ls,
    decreases ls.len(),
{
    if ls.len() == 0 {
        lemma_lines_scan_no_newline(joined_lines(ls));
        assert(lines(joined_lines(ls)) =~= ls);
    } else {
        let l = ls[0];
        let rest = ls.drop_first();
        assert(plain_line(l));
        assert forall|k: int| 0 <= k < rest.len() implies plain_line(#[trigger] rest[k]) by {
            assert(rest[k] == ls[k + 1]);
        }
        lemma_lines_of_joined(rest);
        lemma_lines_after_line(l, joined_lines(rest));
        assert(strip_cr(l) == l);
        assert(seq![l] + rest =~= ls);
    }
}

/// The views of a sequence of character vectors.
pub open spec fn views(v: Seq<Vec<char>>) -> Seq<Seq<char>> {
    v.map_values(|l: Vec<char>| l@)
}

/// The lines of `s`.
pub fn split_lines(s: &Vec<char>) -> (res: Vec<Vec<char>>)
    ensures
        views(res@) == lines(s@),
{
    let mut done: Vec<Vec<char>> = Vec::new();
    let mut cur: Vec<char> = Vec::new();
    let mut i: usize = 0;
    while i < s.len()
        invariant
            i <= s.len(),
            (views(done@), cur@) == lines_scan(s@.take(i as int)),
        decreases s.len() - i,
    {
        assert(s@.take(i + 1).drop_last() =~= s@.take(i as int));
        let c = s[i];
        if c == '\n' {
            if cur.len() > 0 && cur[cur.len() - 1] == '\r' {
                cur.pop();
            }
            let line = cur;
            cur = Vec::new();
            done.push(line);
            assert(views(done@) =~= lines_scan(s@.take(i + 1)).0);
        } else {
            cur.push(c);
        }
        i = i + 1;
    }
    assert(s@.take(s.len() as int) =~= s@);
    if cur.len() > 0 {
        done.push(cur);
        assert(views(done@) =~= lines(s@));
    }
    done
}

/// The words of `s`.
pub fn split_words(s: &Vec<char>) -> (res: Vec<Vec<char>>)
    ensures
        views(res@) == words(s@),
{
    let mut done: Vec<Vec<char>> = Vec::new();
    let mut cur: Vec<char> = Vec::new();
    let mut i: usize = 0;
    while i < s.len()
        invariant
            i <= s.len(),
            (views(done@), cur@) == words_scan(s@.take(i as int)),
        decreases s.len() - i,
    {
        assert(s@.take(i + 1).drop_last() =~= s@.take(i as int));
        let c = s[i];
        if is_whitespace_exec(c) {
            if cur.len() > 0 {
                let word = cur;
                cur = Vec::new();
                done.push(word);
                assert(views(done@) =~= words_scan(s@.take(i + 1)).0);
            }
        } else {
            cur.push(c);
        }
        i = i + 1;
    }
    assert(s@.take(s.len() as int) =~= s@);
    if cur.len() > 0 {
        done.push(cur);
        assert(views(done@) =~= words(s@));
    }
    done
}

// ---------------------------------------------------------------------------
// Building strings
// ---------------------------------------------------------------------------

/// Appends `c` to `s` (`String::push`).
#[verifier::external_body]
pub(crate) fn push_char(s: &mut String, c: char)
    ensures
        final(s)@ == old(s)@.push(c),
{
    s.push(c);
}

/// Removes the last character of `s`, if any (`String::pop`).
#[verifier::external_body]
pub(crate) fn pop_char(s: &mut String) -> (res: Option<char>)
    ensures
        old(s)@.len() == 0 ==> res is None && final(s)@ == old(s)@,
        old(s)@.len() > 0 ==> res == Some(old(s)@.last()) && final(s)@ == old(s)@.drop_last(),
{
    s.pop()
}

/// Appends `t` to `s`.
pub fn push_str(s: &mut String, t: &str)
    ensures
        final(s)@ == old(s)@ + t@,
{
    let ghost start = s@;
    for c in it: t.chars()
        invariant
            it.seq() == t@,
            s@ == start + it.seq().take(it.index() as int),
    {
        push_char(s, c);
        assert(s@ =~= start + it.seq().take(it.index() + 1));
    }
    assert(t@.take(t@.len() as int) =~= t@);
}

/// The characters `v[from..to]` as a string.
pub fn string_of(v: &Vec<char>, from: usize, to: usize) -> (res: String)
    requires
        from <= to <= v.len(),
    ensures
        res@ == v@.subrange(from as int, to as int),
{
    let mut res = String::new();
    let mut i = from;
    while i < to
        invariant
            from <= i <= to <= v.len(),
            res@ == v@.subrange(from as int, i as int),
        decreases to - i,
    {
        push_char(&mut res, v[i]);
        i = i + 1;
        assert(res@ =~= v@.subrange(from as int, i as int));
    }
    res
}

/// All of `v` as a string.
pub fn string_of_all(v: &Vec<char>) -> (res: String)
    ensures
        res@ == v@,
{
    let res = string_of(v, 0, v.len());
    assert(v@.subrange(0, v@.len() as int) =~= v@);
    res
}

/// The characters of `s`, in order.
pub fn chars_of(s: &str) -> (res: Vec<char>)
    ensures
        res@ == s@,
{
    let mut res: Vec<char> = Vec::new();
    for c in it: s.chars()
        invariant
            res@ == it.seq().take(it.index() as int),
            it.seq() == s@,
    {
        res.push(c);
    }
    assert(s@.take(s@.len() as int) =~= s@);
    res
}

/// Every character of `s` is ASCII.
pub open spec fn is_ascii_text(s: Seq<char>) -> bool {
    forall|i: int| 0 <= i < s.len() ==> (s[i] as u32) < 128
}

/// `c` with `'A'..='Z'` mapped to `'a'..='z'`.
pub open spec fn ascii_lower(c: char) -> char {
    let u = c as u32;
    if 65 <= u <= 90 {
        (u + 32) as char
    } else {
        c
    }
}

/// `s` with each ASCII capital letter made small.
pub open spec fn ascii_lowercase(s: Seq<char>) -> Seq<char> {
    s.map_values(|c: char| ascii_lower(c))
}

/// `p` begins `s` and `s` holds `t`: then `s` holds `p` too.
pub proof fn lemma_contains_prefix(s: Seq<char>, p: Seq<char>, t: Seq<char>)
    requires
        starts_with(t, p),
        contains(s, t),
    ensures
        contains(s, p),
{
    let i = choose|i: int| matches_at(s, t, i);
    assert(s.subrange(i, i + p.len()) =~= t.subrange(0, p.len() as int));
    assert(matches_at(s, p, i));
}

/// The lowercase form of a string, as `str::to_lowercase` computes it.
pub uninterp spec fn lowercase(s: Seq<char>) -> Seq<char>;

/// Lowercases `s` with `str::to_lowercase`. Its result is named
/// `lowercase`; of ASCII text it is stated in full: `A` to `Z` become `a` to
/// `z` and every other character stays (std documents `to_lowercase` as
/// lowercasing ASCII characters as `to_ascii_lowercase` does, besides the
/// others).
#[verifier::external_body]
pub(crate) fn to_lowercase(s: &str) -> (res: String)
    ensures
        res@ == lowercase(s@),
        is_ascii_text(s@) ==> res@ == ascii_lowercase(s@),
{
    s.to_lowercase()
}

/// `n` spaces.
pub open spec fn spaces(n: nat) -> Seq<char> {
    Seq::new(n, |i: int| ' ')
}

/// `s` followed by spaces up to `width` characters, as `{:<width}` formats it.
pub open spec fn pad_right(s: Seq<char>, width: nat) -> Seq<char> {
    if s.len() >= width {
        s
    } else {
        s + spaces((width - s.len()) as nat)
    }
}

/// `s` preceded by spaces up to `width` characters, as `{:>width}` formats it.
pub open spec fn pad_left(s: Seq<char>, width: nat) -> Seq<char> {
    if s.len() >= width {
        s
    } else {
        spaces((width - s.len()) as nat) + s
    }
}

/// Appends `n` spaces to `s`.
fn push_spaces(s: &mut String, n: usize)
    ensures
        final(s)@ == old(s)@ + spaces(n as nat),
{
    let ghost start = s@;
    let mut k: usize = 0;
    while k < n
        invariant
            k <= n,
            s@ == start + spaces(k as nat),
        decreases n - k,
    {
        push_char(s, ' ');
        k = k + 1;
        assert(s@ =~= start + spaces(k as nat));
    }
}

/// Appends `t` padded on the right to `width` characters.
pub fn push_padded_right(s: &mut String, t: &str, width: usize)
    ensures
        final(s)@ == old(s)@ + pad_right(t@, width as nat),
{
    let ghost start = s@;
    let n = t.unicode_len();
    push_str(s, t);
    if n < width {
        push_spaces(s, width - n);
        assert(s@ =~= start + pad_right(t@, width as nat));
    }
}

/// Appends `t` padded on the left to `width` characters.
pub fn push_padded_left(s: &mut String, t: &str, width: usize)
    ensures
        final(s)@ == old(s)@ + pad_left(t@, width as nat),
{
    let ghost start = s@;
    let n = t.unicode_len();
    if n < width {
        push_spaces(s, width - n);
    }
    push_str(s, t);
    assert(s@ =~= start + pad_left(t@, width as nat));
}

} // verus!
