//! Character-level text handling: whitespace, trimming, lines, joining,
//! splitting and case-insensitive comparison, each with a specification
//! over `Seq<char>`.
use vstd::prelude::*;

verus! {

/// Appending one character to a `String` appends it to its character sequence.
pub assume_specification[ String::push ](s: &mut String, ch: char)
    ensures
        final(s)@ == old(s)@.push(ch),
;

/// The characters of `s`, in order.
pub fn chars_of(s: &str) -> (v: Vec<char>)
    ensures
        v@ == s@,
{
    let mut v: Vec<char> = Vec::new();
    for c in it: s.chars()
        invariant
            v@ == it.seq().take(it.index() as int),
    {
        v.push(c);
    }
    v
}

/// A `String` made of the characters of `v`.
pub fn string_of(v: &[char]) -> (s: String)
    ensures
        s@ == v@,
{
    let mut s = String::new();
    let n = v.len();
    for i in 0..n
        invariant
            n == v@.len(),
            s@ == v@.take(i as int),
    {
        s.push(v[i]);
        assert(v@.take(i + 1) == v@.take(i as int).push(v@[i as int]));
    }
    assert(v@.take(n as int) == v@);
    s
}

/// Appends the characters of `src` to `dst`.
pub fn extend_chars(dst: &mut Vec<char>, src: &[char])
    ensures
        final(dst)@ == old(dst)@ + src@,
{
    let n = src.len();
    for i in 0..n
        invariant
            n == src@.len(),
            dst@ == old(dst)@ + src@.take(i as int),
    {
        dst.push(src[i]);
        assert(src@.take(i + 1) == src@.take(i as int).push(src@[i as int]));
    }
    assert(src@.take(n as int) == src@);
}

// ---------------------------------------------------------------------------
// Whitespace and trimming
// ---------------------------------------------------------------------------

/// The Unicode `White_Space` property (the characters that
/// `char::is_whitespace` accepts).
pub open spec fn is_ws(c: char) -> bool {
    let u = c as u32;
    ||| 0x09 <= u <= 0x0d
    ||| u == 0x20
    ||| u == 0x85
    ||| u == 0xa0
    ||| u == 0x1680
    ||| 0x2000 <= u <= 0x200a
    ||| u == 0x2028
    ||| u == 0x2029
    ||| u == 0x202f
    ||| u == 0x205f
    ||| u == 0x3000
}

/// Whether `c` is whitespace in the sense of Unicode's `White_Space`.
pub fn is_whitespace(c: char) -> (b: bool)
    ensures
        b == is_ws(c),
{
    let u = c as u32;
    (0x09 <= u && u <= 0x0d) || u == 0x20 || u == 0x85 || u == 0xa0 || u == 0x1680 || (0x2000
        <= u && u <= 0x200a) || u == 0x2028 || u == 0x2029 || u == 0x202f || u == 0x205f || u
        == 0x3000
}

/// `s` without its leading whitespace.
pub open spec fn trim_start(s: Seq<char>) -> Seq<char>
    decreases s.len(),
{
    if s.len() > 0 && is_ws(s[0]) {
        trim_start(s.drop_first())
    } else {
        s
    }
}

/// `s` without its trailing whitespace.
pub open spec fn trim_end(s: Seq<char>) -> Seq<char>
    decreases s.len(),
{
    if s.len() > 0 && is_ws(s.last()) {
        trim_end(s.drop_last())
    } else {
        s
    }
}

/// `s` without leading and trailing whitespace.
pub open spec fn trim(s: Seq<char>) -> Seq<char> {
    trim_end(trim_start(s))
}

proof fn lemma_trim_start_skip(s: Seq<char>, i: int)
    requires
        0 <= i <= s.len(),
        forall|j: int| 0 <= j < i ==> is_ws(#[trigger] s[j]),
    ensures
        trim_start(s) == trim_start(s.skip(i)),
    decreases i,
{
    if i > 0 {
        assert(s.drop_first().skip(i - 1) == s.skip(i));
        assert forall|j: int| 0 <= j < i - 1 implies is_ws(#[trigger] s.drop_first()[j]) by {
            assert(s.drop_first()[j] == s[j + 1]);
        }
        assert(is_ws(s[0]));
        lemma_trim_start_skip(s.drop_first(), i - 1);
    } else {
        assert(s.skip(0) == s);
    }
}

proof fn lemma_trim_end_take(s: Seq<char>, i: int)
    requires
        0 <= i <= s.len(),
        forall|j: int| i <= j < s.len() ==> is_ws(#[trigger] s[j]),
    ensures
        trim_end(s) == trim_end(s.take(i)),
    decreases s.len() - i,
{
    if i < s.len() {
        assert(s.drop_last().take(i) == s.take(i));
        lemma_trim_end_take(s.drop_last(), i);
    } else {
        assert(s.take(i) == s);
    }
}

/// The index of the first character of `v` that is not whitespace
/// (`v.len()` if there is none).
pub fn trim_start_index(v: &[char]) -> (i: usize)
    ensures
        i <= v@.len(),
        trim_start(v@) == v@.skip(i as int),
{
    let n = v.len();
    let mut i: usize = 0;
    while i < n && is_whitespace(v[i])
        invariant
            n == v@.len(),
            i <= n,
            forall|j: int| 0 <= j < i ==> is_ws(#[trigger] v@[j]),
        decreases n - i,
    {
        i = i + 1;
    }
    proof {
        lemma_trim_start_skip(v@, i as int);
        let t = v@.skip(i as int);
        if t.len() > 0 {
            assert(t[0] == v@[i as int]);
        }
    }
    i
}

/// The index just past the last character of `v` that is not whitespace
/// (`0` if there is none).
pub fn trim_end_index(v: &[char]) -> (e: usize)
    ensures
        e <= v@.len(),
        trim_end(v@) == v@.take(e as int),
{
    let mut e: usize = v.len();
    while e > 0 && is_whitespace(v[e - 1])
        invariant
            e <= v@.len(),
            forall|j: int| e <= j < v@.len() ==> is_ws(#[trigger] v@[j]),
        decreases e,
    {
        e = e - 1;
    }
    proof {
        lemma_trim_end_take(v@, e as int);
        let t = v@.take(e as int);
        if t.len() > 0 {
            assert(t.last() == v@[e - 1]);
        }
    }
    e
}

/// `v` without leading and trailing whitespace.
pub fn trim_chars(v: &[char]) -> (r: Vec<char>)
    ensures
        r@ == trim(v@),
{
    let s = trim_start_index(v);
    let rest = &v[s..v.len()];
    assert(rest@ == v@.skip(s as int));
    let e = trim_end_index(rest);
    let mut r: Vec<char> = Vec::new();
    extend_chars(&mut r, &rest[0..e]);
    assert(r@ == rest@.take(e as int));
    r
}

// ---------------------------------------------------------------------------
// Lines and joining
// ---------------------------------------------------------------------------

/// The index of the first occurrence of `c` in `s` at or after `from`.
pub open spec fn find_char_from(s: Seq<char>, c: char, from: int) -> Option<int>
    decreases s.len() - from,
{
    if from < 0 || from >= s.len() {
        None
    } else if s[from] == c {
        Some(from)
    } else {
        find_char_from(s, c, from + 1)
    }
}

/// `s` without one trailing carriage return, if it has one.
pub open spec fn strip_cr(s: Seq<char>) -> Seq<char> {
    if s.len() > 0 && s.last() == '\r' {
        s.drop_last()
    } else {
        s
    }
}

/// The lines of `s` as `str::lines` yields them: split after each `'\n'`,
/// each line without its `"\n"` or `"\r\n"` ending; a final line ending
/// adds no empty line, and the empty text has no lines.
pub open spec fn lines(s: Seq<char>) -> Seq<Seq<char>>
    decreases s.len(),
{
    if s.len() == 0 {
        Seq::empty()
    } else {
        match find_char_from(s, '\n', 0) {
            None => seq![s],
            Some(i) => {
                if 0 <= i < s.len() {
                    seq![strip_cr(s.take(i))] + lines(s.skip(i + 1))
                } else {
                    Seq::empty()
                }
            },
        }
    }
}

/// The elements of `parts` with `sep` between each two of them.
pub open spec fn join(parts: Seq<Seq<char>>, sep: Seq<char>) -> Seq<char>
    decreases parts.len(),
{
    if parts.len() == 0 {
        Seq::empty()
    } else if parts.len() == 1 {
        parts[0]
    } else {
        join(parts.drop_last(), sep) + sep + parts.last()
    }
}

proof fn lemma_find_char_from_props(s: Seq<char>, c: char, from: int)
    requires
        0 <= from,
    ensures
        match find_char_from(s, c, from) {
            Some(i) => from <= i < s.len() && s[i] == c && forall|j: int|
                from <= j < i ==> s[j] != c,
            None => forall|j: int| from <= j < s.len() ==> s[j] != c,
        },
    decreases s.len() - from,
{
    if from < s.len() && s[from] != c {
        lemma_find_char_from_props(s, c, from + 1);
    }
}

proof fn lemma_find_char_from_eq(s: Seq<char>, c: char, from: int, i: int)
    requires
        0 <= from <= i <= s.len(),
        forall|j: int| from <= j < i ==> s[j] != c,
    ensures
        find_char_from(s, c, from) == find_char_from(s, c, i),
    decreases i - from,
{
    if from < i {
        lemma_find_char_from_eq(s, c, from + 1, i);
    }
}

proof fn lemma_find_char_skip(s: Seq<char>, c: char, k: int, i: int)
    requires
        0 <= k <= i <= s.len(),
    ensures
        find_char_from(s, c, i) == match find_char_from(s.skip(k), c, i - k) {
            Some(j) => Some(j + k),
            None => None::<int>,
        },
    decreases s.len() - i,
{
    if i < s.len() && s[i] != c {
        lemma_find_char_skip(s, c, k, i + 1);
    }
}

/// The lines of `v`, as `str::lines` yields them.
pub fn split_lines(v: &[char]) -> (r: Vec<Vec<char>>)
    ensures
        r@.len() == lines(v@).len(),
        forall|k: int| 0 <= k < r@.len() ==> #[trigger] r@[k]@ == lines(v@)[k],
{
    let n = v.len();
    let mut r: Vec<Vec<char>> = Vec::new();
    let mut start: usize = 0;
    let mut cur: Vec<char> = Vec::new();
    let mut i: usize = 0;
    proof {
        let done = Seq::new(r@.len(), |k: int| r@[k]@);
        assert(v@.skip(0) == v@);
        assert(done + lines(v@) == lines(v@));
    }
    while i < n
        invariant
            n == v@.len(),
            start <= i <= n,
            cur@ == v@.subrange(start as int, i as int),
            forall|j: int| start <= j < i ==> v@[j] != '\n',
            // lines already produced, followed by the lines of the rest
            ({
                let done = Seq::new(r@.len(), |k: int| r@[k]@);
                done + lines(v@.skip(start as int)) == lines(v@)
            }),
        decreases n - i,
    {
        if v[i] == '\n' {
            let ghost rest = v@.skip(start as int);
            proof {
                lemma_find_char_from_eq(rest, '\n', 0, (i - start) as int);
                assert(rest[(i - start) as int] == '\n');
                assert(rest.take((i - start) as int) == cur@);
                assert(rest.skip((i - start) + 1) == v@.skip(i + 1));
            }
            let mut line = cur;
            if line.len() > 0 && line[line.len() - 1] == '\r' {
                line.pop();
            }
            assert(line@ == strip_cr(cur@));
            let ghost old_r = r@;
            r.push(line);
            proof {
                let done_old = Seq::new(old_r.len(), |k: int| old_r[k]@);
                let done_new = Seq::new(r@.len(), |k: int| r@[k]@);
                assert(done_new == done_old.push(strip_cr(cur@)));
                assert(lines(rest) == seq![strip_cr(cur@)] + lines(v@.skip(i + 1)));
                assert(done_new + lines(v@.skip(i + 1)) == done_old + lines(rest));
            }
            cur = Vec::new();
            i = i + 1;
            start = i;
        } else {
            cur.push(v[i]);
            i = i + 1;
        }
    }
    let ghost rest = v@.skip(start as int);
    proof {
        assert(rest == cur@);
        lemma_find_char_from_props(rest, '\n', 0);
    }
    if cur.len() > 0 {
        let ghost old_r = r@;
        r.push(cur);
        proof {
            let done_old = Seq::new(old_r.len(), |k: int| old_r[k]@);
            let done_new = Seq::new(r@.len(), |k: int| r@[k]@);
            assert(done_new == done_old.push(rest));
            assert(lines(rest) == seq![rest]);
            assert(done_new == done_old + lines(rest));
        }
    } else {
        assert(lines(rest) == Seq::<Seq<char>>::empty());
    }
    proof {
        let done = Seq::new(r@.len(), |k: int| r@[k]@);
        assert(done == lines(v@));
        assert forall|k: int| 0 <= k < r@.len() implies #[trigger] r@[k]@ == lines(v@)[k] by {
            assert(done[k] == r@[k]@);
        }
    }
    r
}

/// `parts[from..to]` joined with `sep`.
pub fn join_parts(parts: &Vec<Vec<char>>, from: usize, to: usize, sep: &[char]) -> (r: Vec<char>)
    requires
        from <= to <= parts@.len(),
    ensures
        r@ == join(Seq::new((to - from) as nat, |k: int| parts@[from + k]@), sep@),
{
    let mut r: Vec<char> = Vec::new();
    let mut i = from;
    while i < to
        invariant
            from <= i <= to <= parts@.len(),
            r@ == join(Seq::new((i - from) as nat, |k: int| parts@[from + k]@), sep@),
        decreases to - i,
    {
        let ghost before = Seq::new((i - from) as nat, |k: int| parts@[from + k]@);
        let ghost after = Seq::new((i + 1 - from) as nat, |k: int| parts@[from + k]@);
        assert(after.drop_last() == before);
        if i > from {
            extend_chars(&mut r, sep);
        }
        extend_chars(&mut r, parts[i].as_slice());
        proof {
            if i > from {
                assert(r@ == join(before, sep@) + sep@ + after.last());
            } else {
                assert(after == seq![parts@[i as int]@]);
            }
        }
        i = i + 1;
    }
    r
}

/// `parts[from..to]` joined with `'\n'`.
pub fn join_lines(parts: &Vec<Vec<char>>, from: usize, to: usize) -> (r: Vec<char>)
    requires
        from <= to <= parts@.len(),
    ensures
        r@ == join(Seq::new((to - from) as nat, |k: int| parts@[from + k]@), seq!['\n']),
{
    let sep = ['\n'];
    let r = join_parts(parts, from, to, sep.as_slice());
    assert(sep@ == seq!['\n']);
    r
}

/// All of `parts` joined with `sep`.
pub fn join_all(parts: &Vec<Vec<char>>, sep: &[char]) -> (r: Vec<char>)
    ensures
        r@ == join(parts@.map_values(|p: Vec<char>| p@), sep@),
{
    let r = join_parts(parts, 0, parts.len(), sep);
    assert(Seq::new(parts@.len(), |k: int| parts@[0 + k]@) == parts@.map_values(|p: Vec<char>| p@));
    r
}

// ---------------------------------------------------------------------------
// Decimal numbers
// ---------------------------------------------------------------------------

/// The decimal digit for `d` (below 10).
pub open spec fn digit_char(d: nat) -> char {
    ((0x30 + d) as u32) as char
}

/// The decimal text of `n`, without sign or leading zeros.
pub open spec fn decimal(n: nat) -> Seq<char>
    decreases n,
{
    if n < 10 {
        seq![digit_char(n)]
    } else {
        decimal(n / 10) + seq![digit_char(n % 10)]
    }
}

/// The decimal text of `n`.
pub fn decimal_chars(n: u64) -> (r: Vec<char>)
    ensures
        r@ == decimal(n as nat),
    decreases n,
{
    let d = (n % 10) as u32;
    let c: char = if d == 0 {
        '0'
    } else if d == 1 {
        '1'
    } else if d == 2 {
        '2'
    } else if d == 3 {
        '3'
    } else if d == 4 {
        '4'
    } else if d == 5 {
        '5'
    } else if d == 6 {
        '6'
    } else if d == 7 {
        '7'
    } else if d == 8 {
        '8'
    } else {
        '9'
    };
    assert(c == digit_char((n % 10) as nat));
    if n < 10 {
        let mut r: Vec<char> = Vec::new();
        r.push(c);
        r
    } else {
        let mut r = decimal_chars(n / 10);
        r.push(c);
        r
    }
}

// ---------------------------------------------------------------------------
// Case-insensitive comparison
// ---------------------------------------------------------------------------

/// The code of the ASCII lower case of `c`; every other character keeps
/// its own code.
pub open spec fn ascii_lower(c: char) -> u32 {
    if 'A' <= c <= 'Z' {
        ((c as u32) + 32) as u32
    } else {
        c as u32
    }
}

/// `a` and `b` are equal when ASCII letters are compared without case
/// (as `str::eq_ignore_ascii_case` compares them).
pub open spec fn eq_ignore_ascii_case(a: Seq<char>, b: Seq<char>) -> bool {
    &&& a.len() == b.len()
    &&& forall|i: int| 0 <= i < a.len() ==> ascii_lower(#[trigger] a[i]) == ascii_lower(b[i])
}

pub fn lower(c: char) -> (r: u32)
    ensures
        r == ascii_lower(c),
{
    if 'A' <= c && c <= 'Z' {
        (c as u32) + 32
    } else {
        c as u32
    }
}

pub fn chars_eq_ignore_ascii_case(a: &[char], b: &[char]) -> (r: bool)
    ensures
        r == eq_ignore_ascii_case(a@, b@),
{
    if a.len() != b.len() {
        return false;
    }
    let n = a.len();
    for i in 0..n
        invariant
            n == a@.len(),
            n == b@.len(),
            forall|j: int| 0 <= j < i ==> ascii_lower(#[trigger] a@[j]) == ascii_lower(b@[j]),
    {
        if lower(a[i]) != lower(b[i]) {
            return false;
        }
    }
    true
}

} // verus!

verus! {

// ---------------------------------------------------------------------------
// Splitting on a separator
// ---------------------------------------------------------------------------

/// The pieces of `s` between occurrences of `c`, as `str::split(c)` yields
/// them (so the empty text has one empty piece).
pub open spec fn split_on(s: Seq<char>, c: char) -> Seq<Seq<char>>
    decreases s.len(),
{
    match find_char_from(s, c, 0) {
        None => seq![s],
        Some(i) => {
            if 0 <= i < s.len() {
                seq![s.take(i)] + split_on(s.skip(i + 1), c)
            } else {
                seq![s]
            }
        },
    }
}

/// The last piece of `s` split on `c`.
pub open spec fn last_piece(s: Seq<char>, c: char) -> Seq<char> {
    split_on(s, c).last()
}

pub proof fn lemma_split_on_props(s: Seq<char>, c: char)
    ensures
        split_on(s, c).len() > 0,
        forall|k: int, j: int|
            0 <= k < split_on(s, c).len() && 0 <= j < split_on(s, c)[k].len() ==> #[trigger] split_on(
                s,
                c,
            )[k][j] != c,
    decreases s.len(),
{
    lemma_find_char_from_props(s, c, 0);
    match find_char_from(s, c, 0) {
        None => {},
        Some(i) => {
            lemma_split_on_props(s.skip(i + 1), c);
            let rest = split_on(s.skip(i + 1), c);
            assert forall|k: int, j: int|
                0 <= k < split_on(s, c).len() && 0 <= j < split_on(s, c)[k].len() implies #[trigger] split_on(
                s,
                c,
            )[k][j] != c by {
                if k > 0 {
                    assert(split_on(s, c)[k] == rest[k - 1]);
                }
            }
        },
    }
}

/// A text without `c` splits into itself alone.
pub proof fn lemma_split_on_without(s: Seq<char>, c: char)
    requires
        forall|j: int| 0 <= j < s.len() ==> s[j] != c,
    ensures
        split_on(s, c) == seq![s],
{
    lemma_find_char_from_props(s, c, 0);
}

/// The pieces of `v` between occurrences of `c`.
pub fn split_char(v: &[char], c: char) -> (r: Vec<Vec<char>>)
    ensures
        r@.len() == split_on(v@, c).len(),
        forall|k: int| 0 <= k < r@.len() ==> #[trigger] r@[k]@ == split_on(v@, c)[k],
{
    let n = v.len();
    let mut r: Vec<Vec<char>> = Vec::new();
    let mut start: usize = 0;
    let mut cur: Vec<char> = Vec::new();
    let mut i: usize = 0;
    proof {
        let done = Seq::new(r@.len(), |k: int| r@[k]@);
        assert(v@.skip(0) == v@);
        assert(done + split_on(v@, c) == split_on(v@, c));
    }
    while i < n
        invariant
            n == v@.len(),
            start <= i <= n,
            cur@ == v@.subrange(start as int, i as int),
            forall|j: int| start <= j < i ==> v@[j] != c,
            ({
                let done = Seq::new(r@.len(), |k: int| r@[k]@);
                done + split_on(v@.skip(start as int), c) == split_on(v@, c)
            }),
        decreases n - i,
    {
        if v[i] == c {
            let ghost rest = v@.skip(start as int);
            proof {
                lemma_find_char_from_eq(rest, c, 0, (i - start) as int);
                assert(rest[(i - start) as int] == c);
                assert(rest.take((i - start) as int) == cur@);
                assert(rest.skip((i - start) + 1) == v@.skip(i + 1));
            }
            let ghost old_r = r@;
            let ghost piece = cur@;
            r.push(cur);
            proof {
                let done_old = Seq::new(old_r.len(), |k: int| old_r[k]@);
                let done_new = Seq::new(r@.len(), |k: int| r@[k]@);
                assert(done_new == done_old.push(piece));
                assert(split_on(rest, c) == seq![piece] + split_on(v@.skip(i + 1), c));
                assert(done_new + split_on(v@.skip(i + 1), c) == done_old + split_on(rest, c));
            }
            cur = Vec::new();
            i = i + 1;
            start = i;
        } else {
            cur.push(v[i]);
            i = i + 1;
        }
    }
    let ghost rest = v@.skip(start as int);
    proof {
        assert(rest == cur@);
        lemma_find_char_from_props(rest, c, 0);
    }
    let ghost old_r = r@;
    r.push(cur);
    proof {
        let done_old = Seq::new(old_r.len(), |k: int| old_r[k]@);
        let done_new = Seq::new(r@.len(), |k: int| r@[k]@);
        assert(done_new == done_old.push(rest));
        assert(split_on(rest, c) == seq![rest]);
        assert(done_new == split_on(v@, c));
        assert forall|k: int| 0 <= k < r@.len() implies #[trigger] r@[k]@ == split_on(v@, c)[k] by {
            assert(done_new[k] == r@[k]@);
        }
    }
    r
}

/// The last piece of `v` split on `c`.
pub fn last_piece_of(v: &[char], c: char) -> (r: Vec<char>)
    ensures
        r@ == last_piece(v@, c),
{
    let mut pieces = split_char(v, c);
    proof {
        lemma_split_on_props(v@, c);
    }
    let k = pieces.len() - 1;
    assert(pieces@[k as int]@ == split_on(v@, c).last());
    pieces.swap_remove(k)
}

} // verus!

verus! {

/// Whether two texts are equal.
pub fn str_eq(a: &str, b: &str) -> (r: bool)
    ensures
        r == (a@ == b@),
{
    let av = chars_of(a);
    let bv = chars_of(b);
    if av.len() != bv.len() {
        return false;
    }
    let n = av.len();
    for i in 0..n
        invariant
            n == av@.len(),
            n == bv@.len(),
            av@ == a@,
            bv@ == b@,
            forall|j: int| 0 <= j < i ==> av@[j] == bv@[j],
    {
        if av[i] != bv[i] {
            return false;
        }
    }
    assert(av@ =~= bv@);
    true
}

} // verus!

verus! {

// ---------------------------------------------------------------------------
// Facts about trimming
// ---------------------------------------------------------------------------

/// Trimming the start drops some leading characters.
pub proof fn lemma_trim_start_drops(s: Seq<char>) -> (k: int)
    ensures
        0 <= k <= s.len(),
        trim_start(s) == s.skip(k),
        trim_start(s).len() > 0 ==> !is_ws(trim_start(s)[0]),
    decreases s.len(),
{
    if s.len() > 0 && is_ws(s[0]) {
        let k = lemma_trim_start_drops(s.drop_first());
        assert(s.drop_first().skip(k) == s.skip(k + 1));
        k + 1
    } else {
        assert(s.skip(0) == s);
        0
    }
}

/// Trimming the end keeps some leading characters.
pub proof fn lemma_trim_end_keeps(s: Seq<char>) -> (k: int)
    ensures
        0 <= k <= s.len(),
        trim_end(s) == s.take(k),
        trim_end(s).len() > 0 ==> !is_ws(trim_end(s).last()),
    decreases s.len(),
{
    if s.len() > 0 && is_ws(s.last()) {
        let k = lemma_trim_end_keeps(s.drop_last());
        assert(s.drop_last().take(k) == s.take(k));
        k
    } else {
        assert(s.take(s.len() as int) == s);
        s.len() as int
    }
}

/// Trimming yields a stretch of the text.
pub proof fn lemma_trim_is_stretch(s: Seq<char>) -> (r: (int, int))
    ensures
        0 <= r.0 <= r.1 <= s.len(),
        trim(s) == s.subrange(r.0, r.1),
{
    let a = lemma_trim_start_drops(s);
    let b = lemma_trim_end_keeps(trim_start(s));
    assert(trim(s) == s.subrange(a, a + b));
    (a, a + b)
}

/// Trimming twice is trimming once.
pub proof fn lemma_trim_idempotent(s: Seq<char>)
    ensures
        trim(trim(s)) == trim(s),
{
    let t = trim(s);
    let y = trim_start(s);
    lemma_trim_start_drops(s);
    let k = lemma_trim_end_keeps(y);
    // t is a prefix of y, so it starts with a non-space (or is empty)
    if t.len() > 0 {
        assert(t[0] == y[0]);
    }
    assert(trim_start(t) == t);
    let j = lemma_trim_end_keeps(t);
    if t.len() > 0 {
        assert(!is_ws(t.last()));
    }
    assert(trim_end(t) == t);
}

} // verus!
