//! Text handling used by the chat protocol and the command line of the client:
//! trimming, splitting on a separator, ASCII case folding and concatenation.
use vstd::prelude::*;

verus! {

/// The Unicode `White_Space` property (PropList.txt), which `char::is_whitespace`
/// and `str::trim` use as their definition of whitespace.
pub open spec fn is_ws(c: char) -> bool {
    let v = c as u32;
    ||| 0x9 <= v <= 0xd
    ||| v == 0x20
    ||| v == 0x85
    ||| v == 0xa0
    ||| v == 0x1680
    ||| 0x2000 <= v <= 0x200a
    ||| v == 0x2028
    ||| v == 0x2029
    ||| v == 0x202f
    ||| v == 0x205f
    ||| v == 0x3000
}

/// `s` with leading and trailing whitespace removed.
pub open spec fn trim_ws(s: Seq<char>) -> Seq<char>
    decreases s.len(),
{
    if s.len() == 0 {
        s
    } else if is_ws(s[0]) {
        trim_ws(s.drop_first())
    } else if is_ws(s.last()) {
        trim_ws(s.drop_last())
    } else {
        s
    }
}

/// The pieces of `s` between occurrences of `sep`, in order; there is always one
/// more piece than there are separators.
pub open spec fn split_on(s: Seq<char>, sep: char) -> Seq<Seq<char>>
    decreases s.len(),
{
    if s.len() == 0 {
        seq![Seq::<char>::empty()]
    } else {
        let front = split_on(s.drop_last(), sep);
        if s.last() == sep {
            front.push(Seq::<char>::empty())
        } else {
            front.update(front.len() - 1, front.last().push(s.last()))
        }
    }
}

/// The ASCII whitespace characters — tab, line feed, vertical tab, form feed,
/// carriage return (U+0009 to U+000D) and space — are whitespace.
pub proof fn lemma_ascii_whitespace(c: char)
    ensures
        (0x9 <= c as u32 <= 0xd || c == ' ') ==> is_ws(c),
        is_ws('\t') && is_ws('\n') && is_ws('\r') && is_ws(' '),
{
}

/// Trimming removes whitespace at the ends and nothing else: the result is a
/// stretch `s[a..b]` of `s`, everything before `a` and from `b` on is
/// whitespace, and a non-empty result starts and ends with non-whitespace.
pub proof fn lemma_trim_bounds(s: Seq<char>) -> (r: (int, int))
    ensures
        0 <= r.0 <= r.1 <= s.len(),
        trim_ws(s) == s.subrange(r.0, r.1),
        forall|i: int| 0 <= i < r.0 ==> is_ws(#[trigger] s[i]),
        forall|i: int| r.1 <= i < s.len() ==> is_ws(#[trigger] s[i]),
        r.0 < r.1 ==> !is_ws(s[r.0]) && !is_ws(s[r.1 - 1]),
    decreases s.len(),
{
    if s.len() == 0 {
        assert(s.subrange(0, 0) =~= s);
        (0, 0)
    } else if is_ws(s[0]) {
        let t = s.drop_first();
        let (a, b) = lemma_trim_bounds(t);
        assert(t.subrange(a, b) =~= s.subrange(a + 1, b + 1));
        assert forall|i: int| 0 <= i < a + 1 implies is_ws(#[trigger] s[i]) by {
            if i > 0 {
                assert(s[i] == t[i - 1]);
            }
        }
        assert forall|i: int| b + 1 <= i < s.len() implies is_ws(#[trigger] s[i]) by {
            assert(s[i] == t[i - 1]);
        }
        if a < b {
            assert(s[a + 1] == t[a]);
            assert(s[b] == t[b - 1]);
        }
        (a + 1, b + 1)
    } else if is_ws(s.last()) {
        let t = s.drop_last();
        let (a, b) = lemma_trim_bounds(t);
        assert(t.subrange(a, b) =~= s.subrange(a, b));
        assert forall|i: int| 0 <= i < a implies is_ws(#[trigger] s[i]) by {
            assert(s[i] == t[i]);
        }
        assert forall|i: int| b <= i < s.len() implies is_ws(#[trigger] s[i]) by {
            if i < s.len() - 1 {
                assert(s[i] == t[i]);
            }
        }
        if a < b {
            assert(s[a] == t[a]);
            assert(s[b - 1] == t[b - 1]);
        }
        (a, b)
    } else {
        assert(s.subrange(0, s.len() as int) =~= s);
        (0, s.len() as int)
    }
}

/// Trimming a text that starts and ends with non-whitespace, followed by any
/// whitespace (such as a line ending "\r\n" or "\n"), gives the text back.
pub proof fn lemma_trim_drops_trailing_ws(t: Seq<char>, w: Seq<char>)
    requires
        t.len() > 0,
        !is_ws(t[0]),
        !is_ws(t.last()),
        forall|i: int| 0 <= i < w.len() ==> is_ws(#[trigger] w[i]),
    ensures
        trim_ws(t + w) == t,
    decreases w.len(),
{
    let s = t + w;
    assert(s[0] == t[0]);
    if w.len() == 0 {
        assert(s =~= t);
    } else {
        let u = w.drop_last();
        assert forall|i: int| 0 <= i < u.len() implies is_ws(#[trigger] u[i]) by {
            assert(u[i] == w[i]);
        }
        lemma_trim_drops_trailing_ws(t, u);
        assert(s.last() == w[w.len() - 1]);
        assert(s.drop_last() =~= t + u);
    }
}

/// Splitting always yields at least one piece.
pub proof fn lemma_split_nonempty(s: Seq<char>, sep: char)
    ensures
        split_on(s, sep).len() >= 1,
    decreases s.len(),
{
    if s.len() > 0 {
        lemma_split_nonempty(s.drop_last(), sep);
    }
}

/// Appending text without a separator extends the last piece.
pub proof fn lemma_split_append(s: Seq<char>, t: Seq<char>, sep: char)
    requires
        !t.contains(sep),
    ensures
        split_on(s + t, sep) == split_on(s, sep).update(
            split_on(s, sep).len() - 1,
            split_on(s, sep).last() + t,
        ),
    decreases t.len(),
{
    lemma_split_nonempty(s, sep);
    let f = split_on(s, sep);
    if t.len() == 0 {
        assert(s + t =~= s);
        assert(f.last() + t =~= f.last());
        assert(f.update(f.len() - 1, f.last() + t) =~= f);
    } else {
        let u = t.drop_last();
        let c = t.last();
        assert(!u.contains(sep)) by {
            if u.contains(sep) {
                let k = choose|k: int| 0 <= k < u.len() && u[k] == sep;
                assert(t[k] == sep);
            }
        }
        assert(c != sep) by {
            assert(t[t.len() - 1] == c);
        }
        lemma_split_append(s, u, sep);
        assert((s + t).drop_last() =~= s + u);
        assert((s + t).last() == c);
        let front = split_on(s + u, sep);
        assert(front.last() == f.last() + u);
        assert(front.last().push(c) =~= f.last() + t);
        assert(front.update(front.len() - 1, front.last().push(c)) =~= f.update(
            f.len() - 1,
            f.last() + t,
        ));
    }
}

/// The code of `c` after mapping an ASCII upper-case letter to lower case.
pub open spec fn ascii_fold(c: char) -> u32 {
    let v = c as u32;
    if 65 <= v <= 90 {
        (v + 32) as u32
    } else {
        v
    }
}

/// ASCII case-insensitive equality of two texts.
pub open spec fn eq_ignoring_ascii_case(a: Seq<char>, b: Seq<char>) -> bool {
    &&& a.len() == b.len()
    &&& forall|i: int| 0 <= i < a.len() ==> ascii_fold(#[trigger] a[i]) == ascii_fold(b[i])
}

/// The texts of `list` joined with `sep` between neighbours.
pub open spec fn join_with(list: Seq<Seq<char>>, sep: Seq<char>) -> Seq<char>
    decreases list.len(),
{
    if list.len() == 0 {
        Seq::<char>::empty()
    } else if list.len() == 1 {
        list[0]
    } else {
        join_with(list.drop_last(), sep) + sep + list.last()
    }
}

/// The views of a sequence of strings.
pub open spec fn texts(v: Seq<String>) -> Seq<Seq<char>> {
    v.map_values(|s: String| s@)
}

/// Whether `c` is whitespace in the sense of `char::is_whitespace`.
pub fn is_whitespace(c: char) -> (r: bool)
    ensures
        r == is_ws(c),
{
    let v = c as u32;
    (0x9 <= v && v <= 0xd) || v == 0x20 || v == 0x85 || v == 0xa0 || v == 0x1680 || (0x2000 <= v
        && v <= 0x200a) || v == 0x2028 || v == 0x2029 || v == 0x202f || v == 0x205f || v == 0x3000
}

/// `s` without its leading and trailing whitespace, as `str::trim` gives it.
pub fn trim(s: &str) -> (r: String)
    ensures
        r@ == trim_ws(s@),
{
    let n = s.unicode_len();
    let mut a: usize = 0;
    assert(s@.subrange(0, n as int) =~= s@);
    while a < n && is_whitespace(s.get_char(a))
        invariant
            a <= n,
            n == s@.len(),
            trim_ws(s@) == trim_ws(s@.subrange(a as int, n as int)),
        decreases n - a,
    {
        proof {
            let sub = s@.subrange(a as int, n as int);
            assert(sub[0] == s@[a as int]);
            assert(sub.drop_first() =~= s@.subrange(a + 1, n as int));
        }
        a = a + 1;
    }
    let mut b: usize = n;
    while b > a && is_whitespace(s.get_char(b - 1))
        invariant
            a <= b <= n,
            n == s@.len(),
            trim_ws(s@) == trim_ws(s@.subrange(a as int, b as int)),
            a < b ==> !is_ws(s@[a as int]),
        decreases b - a,
    {
        proof {
            let sub = s@.subrange(a as int, b as int);
            assert(sub[0] == s@[a as int]);
            assert(sub.last() == s@[b - 1]);
            assert(sub.drop_last() =~= s@.subrange(a as int, b - 1));
        }
        b = b - 1;
    }
    proof {
        let sub = s@.subrange(a as int, b as int);
        if a < b {
            assert(sub[0] == s@[a as int]);
            assert(sub.last() == s@[b - 1]);
        }
    }
    String::from_str(s.substring_char(a, b))
}

/// The pieces of `s` between occurrences of `sep`, as `str::split` yields them.
pub fn split_text(s: &str, sep: char) -> (parts: Vec<String>)
    ensures
        texts(parts@) == split_on(s@, sep),
{
    let n = s.unicode_len();
    let mut parts: Vec<String> = Vec::new();
    let mut start: usize = 0;
    let mut i: usize = 0;
    proof {
        assert(s@.subrange(0, 0) =~= Seq::<char>::empty());
        assert(texts(parts@) + seq![s@.subrange(0, 0)] =~= split_on(Seq::<char>::empty(), sep));
    }
    while i < n
        invariant
            start <= i <= n,
            n == s@.len(),
            texts(parts@) + seq![s@.subrange(start as int, i as int)] == split_on(
                s@.subrange(0, i as int),
                sep,
            ),
        decreases n - i,
    {
        let c = s.get_char(i);
        let ghost before = texts(parts@);
        let ghost piece = s@.subrange(start as int, i as int);
        proof {
            let pre = s@.subrange(0, i + 1);
            assert(pre.drop_last() =~= s@.subrange(0, i as int));
            assert(pre.last() == c);
        }
        if c == sep {
            let p = String::from_str(s.substring_char(start, i));
            parts.push(p);
            start = i + 1;
            proof {
                assert(texts(parts@) =~= before.push(piece));
                assert(s@.subrange(start as int, i + 1) =~= Seq::<char>::empty());
                assert(texts(parts@) + seq![s@.subrange(start as int, i + 1)] =~= (before + seq![
                    piece,
                ]).push(Seq::<char>::empty()));
            }
        } else {
            proof {
                let front = before + seq![piece];
                assert(piece.push(c) =~= s@.subrange(start as int, i + 1));
                assert(texts(parts@) + seq![s@.subrange(start as int, i + 1)] =~= front.update(
                    front.len() - 1,
                    front.last().push(c),
                ));
            }
        }
        i = i + 1;
    }
    let last = String::from_str(s.substring_char(start, n));
    let ghost before = texts(parts@);
    parts.push(last);
    proof {
        assert(s@.subrange(0, n as int) =~= s@);
        assert(texts(parts@) =~= before + seq![s@.subrange(start as int, n as int)]);
    }
    parts
}

/// Whether `a` and `b` are the same text.
pub fn same_text(a: &str, b: &str) -> (r: bool)
    ensures
        r == (a@ == b@),
{
    let n = a.unicode_len();
    if n != b.unicode_len() {
        return false;
    }
    let mut i: usize = 0;
    while i < n
        invariant
            i <= n,
            n == a@.len(),
            n == b@.len(),
            forall|k: int| 0 <= k < i ==> #[trigger] a@[k] == b@[k],
        decreases n - i,
    {
        if a.get_char(i) != b.get_char(i) {
            return false;
        }
        i = i + 1;
    }
    assert(a@ =~= b@);
    true
}

/// The code of `c` after ASCII case folding.
fn fold_code(c: char) -> (r: u32)
    ensures
        r == ascii_fold(c),
{
    let v = c as u32;
    if 65 <= v && v <= 90 {
        v + 32
    } else {
        v
    }
}

/// Whether `a` and `b` are equal up to ASCII case, as `str::eq_ignore_ascii_case` decides.
pub fn eq_ignore_ascii_case(a: &str, b: &str) -> (r: bool)
    ensures
        r == eq_ignoring_ascii_case(a@, b@),
{
    let n = a.unicode_len();
    if n != b.unicode_len() {
        return false;
    }
    let mut i: usize = 0;
    while i < n
        invariant
            i <= n,
            n == a@.len(),
            n == b@.len(),
            forall|k: int| 0 <= k < i ==> ascii_fold(#[trigger] a@[k]) == ascii_fold(b@[k]),
        decreases n - i,
    {
        if fold_code(a.get_char(i)) != fold_code(b.get_char(i)) {
            return false;
        }
        i = i + 1;
    }
    true
}

/// The concatenation of three texts.
pub fn concat3(a: &str, b: &str, c: &str) -> (r: String)
    ensures
        r@ == a@ + b@ + c@,
{
    let mut r = String::from_str(a);
    r.append(b);
    r.append(c);
    r
}

/// The texts of `list` joined with `sep` between neighbours, as `[String]::join` gives it.
pub fn join_texts(list: &Vec<String>, sep: &str) -> (r: String)
    ensures
        r@ == join_with(texts(list@), sep@),
{
    let mut r = String::new();
    let mut i: usize = 0;
    while i < list.len()
        invariant
            i <= list.len(),
            r@ == join_with(texts(list@).take(i as int), sep@),
        decreases list.len() - i,
    {
        let ghost prev = texts(list@).take(i as int);
        if i > 0 {
            r.append(sep);
        }
        r.append(list[i].as_str());
        proof {
            let now = texts(list@).take(i + 1);
            assert(now.drop_last() =~= prev);
            assert(now.last() == list@[i as int]@);
            if i == 0 {
                assert(prev.len() == 0);
                assert(r@ =~= list@[0]@);
            }
        }
        i = i + 1;
    }
    proof {
        assert(texts(list@).take(list.len() as int) =~= texts(list@));
    }
    r
}

} // verus!
