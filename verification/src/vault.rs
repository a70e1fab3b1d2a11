//! Reading a deck's UUID out of a KeyForge Vault URL.

use vstd::prelude::*;

verus! {

broadcast use vstd::string::group_string_axioms;

/// The characters of Unicode's White_Space property: what trimming removes.
pub open spec fn is_white_space(c: char) -> bool {
    let u = c as u32;
    ||| 0x9 <= u <= 0xd
    ||| u == 0x20
    ||| u == 0x85
    ||| u == 0xa0
    ||| u == 0x1680
    ||| 0x2000 <= u <= 0x200a
    ||| u == 0x2028
    ||| u == 0x2029
    ||| u == 0x202f
    ||| u == 0x205f
    ||| u == 0x3000
}

/// Number of white-space characters at the start.
pub open spec fn leading_ws(s: Seq<char>) -> nat
    decreases s.len(),
{
    if s.len() > 0 && is_white_space(s[0]) {
        1 + leading_ws(s.drop_first())
    } else {
        0
    }
}

/// Number of white-space characters at the end.
pub open spec fn trailing_ws(s: Seq<char>) -> nat
    decreases s.len(),
{
    if s.len() > 0 && is_white_space(s.last()) {
        1 + trailing_ws(s.drop_last())
    } else {
        0
    }
}

/// The text without leading and trailing white space.
pub open spec fn trimmed(s: Seq<char>) -> Seq<char> {
    let t = s.skip(leading_ws(s) as int);
    t.take(t.len() - trailing_ws(t))
}

/// The pieces between the slashes, empty ones included (n slashes give n + 1 pieces).
pub open spec fn split_slash(s: Seq<char>) -> Seq<Seq<char>>
    decreases s.len(),
{
    if s.len() == 0 {
        seq![Seq::empty()]
    } else {
        let p = split_slash(s.drop_last());
        if s.last() == '/' {
            p.push(Seq::empty())
        } else {
            p.update(p.len() - 1, p.last().push(s.last()))
        }
    }
}

/// Bytes of the UTF-8 encoding of a character.
pub open spec fn utf8_width(c: char) -> nat {
    let u = c as u32;
    if u < 0x80 {
        1
    } else if u < 0x800 {
        2
    } else if u < 0x10000 {
        3
    } else {
        4
    }
}

/// Bytes of the UTF-8 encoding of a text.
pub open spec fn utf8_len(s: Seq<char>) -> nat
    decreases s.len(),
{
    if s.len() == 0 {
        0
    } else {
        utf8_len(s.drop_last()) + utf8_width(s.last())
    }
}

/// Number of '-' characters.
pub open spec fn dash_count(s: Seq<char>) -> nat
    decreases s.len(),
{
    if s.len() == 0 {
        0
    } else {
        dash_count(s.drop_last()) + if s.last() == '-' { 1nat } else { 0nat }
    }
}

/// A piece shaped like a UUID: 36 bytes long with four dashes.
pub open spec fn is_uuid_piece(s: Seq<char>) -> bool {
    utf8_len(s) == 36 && dash_count(s) == 4
}

/// The first piece shaped like a UUID.
pub open spec fn first_uuid_piece(pieces: Seq<Seq<char>>) -> Option<Seq<char>>
    decreases pieces.len(),
{
    if pieces.len() == 0 {
        None
    } else {
        match first_uuid_piece(pieces.drop_last()) {
            Some(p) => Some(p),
            None => if is_uuid_piece(pieces.last()) {
                Some(pieces.last())
            } else {
                None
            },
        }
    }
}

/// The UUID of a Vault URL: the first piece of the trimmed URL between slashes that is
/// shaped like a UUID.
pub open spec fn uuid_of(url: Seq<char>) -> Option<Seq<char>> {
    first_uuid_piece(split_slash(trimmed(url)))
}

proof fn lemma_split_slash_nonempty(s: Seq<char>)
    ensures
        split_slash(s).len() >= 1,
    decreases s.len(),
{
    if s.len() > 0 {
        lemma_split_slash_nonempty(s.drop_last());
    }
}

proof fn lemma_leading_ws(s: Seq<char>, a: int)
    requires
        0 <= a <= s.len(),
        forall|k: int| 0 <= k < a ==> is_white_space(#[trigger] s[k]),
        a == s.len() || !is_white_space(s[a]),
    ensures
        leading_ws(s) == a,
    decreases a,
{
    if a > 0 {
        let t = s.drop_first();
        assert forall|k: int| 0 <= k < a - 1 implies is_white_space(#[trigger] t[k]) by {
            assert(t[k] == s[k + 1]);
        }
        if a - 1 < t.len() {
            assert(t[a - 1] == s[a]);
        }
        lemma_leading_ws(t, a - 1);
    }
}

proof fn lemma_trailing_ws(s: Seq<char>, m: int)
    requires
        0 <= m <= s.len(),
        forall|k: int| s.len() - m <= k < s.len() ==> is_white_space(#[trigger] s[k]),
        m == s.len() || !is_white_space(s[s.len() - m - 1]),
    ensures
        trailing_ws(s) == m,
    decreases m,
{
    if m > 0 {
        let t = s.drop_last();
        assert forall|k: int| t.len() - (m - 1) <= k < t.len() implies is_white_space(#[trigger] t[k]) by {
            assert(t[k] == s[k]);
        }
        if m - 1 < t.len() {
            assert(t[t.len() - (m - 1) - 1] == s[s.len() - m - 1]);
        }
        assert(is_white_space(s[s.len() - 1]));
        lemma_trailing_ws(t, m - 1);
    }
}

proof fn lemma_split_slash_prefix(s: Seq<char>, w: Seq<char>)
    ensures
        split_slash(s + w).len() >= split_slash(s).len(),
        forall|i: int|
            0 <= i < split_slash(s).len() - 1 ==> #[trigger] split_slash(s + w)[i] == split_slash(s)[i],
    decreases w.len(),
{
    lemma_split_slash_nonempty(s);
    if w.len() > 0 {
        let w1 = w.drop_last();
        lemma_split_slash_prefix(s, w1);
        assert((s + w).drop_last() =~= s + w1);
        assert((s + w).last() == w.last());
        lemma_split_slash_nonempty(s + w1);
    } else {
        assert(s + w =~= s);
    }
}

proof fn lemma_first_uuid_prefix(q: Seq<Seq<char>>, m: int, x: Seq<char>)
    requires
        0 <= m <= q.len(),
        first_uuid_piece(q.take(m)) == Some(x),
    ensures
        first_uuid_piece(q) == Some(x),
    decreases q.len() - m,
{
    if q.len() == m {
        assert(q.take(m) =~= q);
    } else {
        assert(q.drop_last().take(m) =~= q.take(m));
        lemma_first_uuid_prefix(q.drop_last(), m, x);
    }
}

fn chars_of(s: &str) -> (v: Vec<char>)
    ensures
        v@ == s@,
{
    let mut v: Vec<char> = Vec::new();
    for c in it: s.chars()
        invariant
            v@ == it.seq().take(it.index() as int),
    {
        v.push(c);
    }
    v
}

fn white_space(c: char) -> (b: bool)
    ensures
        b == is_white_space(c),
{
    let u = c as u32;
    (0x9 <= u && u <= 0xd) || u == 0x20 || u == 0x85 || u == 0xa0 || u == 0x1680 || (0x2000 <= u
        && u <= 0x200a) || u == 0x2028 || u == 0x2029 || u == 0x202f || u == 0x205f || u == 0x3000
}

fn width(c: char) -> (w: u32)
    ensures
        w == utf8_width(c),
{
    let u = c as u32;
    if u < 0x80 {
        1
    } else if u < 0x800 {
        2
    } else if u < 0x10000 {
        3
    } else {
        4
    }
}

/// Extract the UUID segment from a KeyForge Vault URL.
pub fn extract_uuid(url: &str) -> (r: Option<String>)
    ensures
        match r {
            Some(s) => uuid_of(url@) == Some(s@),
            None => uuid_of(url@) is None,
        },
{
    let v = chars_of(url);
    let n = v.len();
    // Trim leading and trailing white space.
    let mut a: usize = 0;
    while a < n && white_space(v[a])
        invariant
            0 <= a <= n,
            n == v@.len(),
            forall|k: int| 0 <= k < a ==> is_white_space(#[trigger] v@[k]),
        decreases n - a,
    {
        a = a + 1;
    }
    let mut e: usize = n;
    while e > a && white_space(v[e - 1])
        invariant
            a <= e <= n,
            n == v@.len(),
            forall|k: int| e <= k < n ==> is_white_space(#[trigger] v@[k]),
        decreases e - a,
    {
        e = e - 1;
    }
    let ghost t = v@.subrange(a as int, e as int);
    proof {
        lemma_leading_ws(v@, a as int);
        let s = v@.skip(a as int);
        assert forall|k: int| s.len() - (n - e) <= k < s.len() implies is_white_space(#[trigger] s[k]) by {
            assert(s[k] == v@[k + a]);
        }
        if n - e < s.len() {
            assert(s[s.len() - (n - e) - 1] == v@[e - 1]);
        }
        lemma_trailing_ws(s, n - e);
        assert(trimmed(url@) =~= t);
    }
    // Walk the pieces between slashes.
    let ghost mut done: Seq<Seq<char>> = Seq::empty();
    let mut start: usize = a;
    let mut bytes: u32 = 0;
    let mut dashes: u32 = 0;
    let mut k: usize = a;
    proof {
        assert(v@.subrange(a as int, a as int) =~= Seq::<char>::empty());
        assert(split_slash(Seq::<char>::empty()) =~= done.push(Seq::<char>::empty()));
    }
    while k < e
        invariant
            a <= start <= k <= e <= n,
            n == v@.len(),
            v@ == url@,
            t == v@.subrange(a as int, e as int),
            trimmed(url@) == t,
            split_slash(v@.subrange(a as int, k as int)) == done.push(v@.subrange(start as int, k as int)),
            first_uuid_piece(done) is None,
            utf8_len(v@.subrange(start as int, k as int)) <= 36 ==> bytes == utf8_len(
                v@.subrange(start as int, k as int),
            ),
            utf8_len(v@.subrange(start as int, k as int)) > 36 ==> bytes > 36,
            bytes <= 40,
            dash_count(v@.subrange(start as int, k as int)) <= 4 ==> dashes == dash_count(
                v@.subrange(start as int, k as int),
            ),
            dash_count(v@.subrange(start as int, k as int)) > 4 ==> dashes > 4,
            dashes <= 5,
        decreases e - k,
    {
        let c = v[k];
        let ghost cur = v@.subrange(start as int, k as int);
        let ghost p = split_slash(v@.subrange(a as int, k as int));
        proof {
            assert(v@.subrange(a as int, k + 1).drop_last() =~= v@.subrange(a as int, k as int));
            assert(v@.subrange(a as int, k + 1).last() == c);
        }
        if c == '/' {
            if bytes == 36 && dashes == 4 {
                proof {
                    assert(is_uuid_piece(cur));
                    assert(done.push(cur).drop_last() =~= done);
                    // The answer is this piece, whatever follows.
                    let s1 = v@.subrange(a as int, k + 1);
                    let rest = v@.subrange(k + 1, e as int);
                    assert(s1 + rest =~= t);
                    assert(split_slash(s1) == done.push(cur).push(Seq::empty()));
                    lemma_split_slash_prefix(s1, rest);
                    let q = split_slash(t);
                    assert(q.take(done.len() + 1int) =~= done.push(cur));
                    lemma_first_uuid_prefix(q, done.len() + 1int, cur);
                    assert(v@.subrange(start as int, k as int) == url@.subrange(start as int, k as int));
                }
                let s = url.substring_char(start, k);
                return Some(s.to_owned());
            }
            proof {
                assert(done.push(cur).drop_last() =~= done);
                done = done.push(cur);
                assert(v@.subrange(k + 1, k + 1) =~= Seq::<char>::empty());
            }
            start = k + 1;
            bytes = 0;
            dashes = 0;
        } else {
            let ghost cur1 = v@.subrange(start as int, k + 1);
            proof {
                assert(cur1.drop_last() =~= cur);
                assert(cur1.last() == c);
                assert(cur1 =~= cur.push(c));
                assert(p.update(p.len() - 1, p.last().push(c)) =~= done.push(cur1));
            }
            if bytes <= 36 {
                bytes = bytes + width(c);
            }
            if dashes <= 4 && c == '-' {
                dashes = dashes + 1;
            }
        }
        k = k + 1;
    }
    let ghost cur = v@.subrange(start as int, e as int);
    proof {
        assert(v@.subrange(a as int, e as int) == t);
        assert(done.push(cur).drop_last() =~= done);
    }
    if bytes == 36 && dashes == 4 {
        let s = url.substring_char(start, e);
        Some(s.to_owned())
    } else {
        None
    }
}

} // verus!
