use vstd::prelude::*;

verus! {

/// Whether `c` has Unicode's White_Space property, the set `char::is_whitespace`
/// and `str::trim` go by: tab to carriage return, space, next line, no-break
/// space, ogham space mark, the spaces from en quad to hair space, line and
/// paragraph separators, narrow no-break space, medium mathematical space and
/// ideographic space.
pub open spec fn white_space(c: char) -> bool {
    let u = c as u32;
    ||| 0x09 <= u <= 0x0D
    ||| u == 0x20
    ||| u == 0x85
    ||| u == 0xA0
    ||| u == 0x1680
    ||| 0x2000 <= u <= 0x200A
    ||| u == 0x2028
    ||| u == 0x2029
    ||| u == 0x202F
    ||| u == 0x205F
    ||| u == 0x3000
}

fn is_white(c: char) -> (r: bool)
    ensures
        r == white_space(c),
{
    let u = c as u32;
    (0x09 <= u && u <= 0x0D) || u == 0x20 || u == 0x85 || u == 0xA0 || u == 0x1680
        || (0x2000 <= u && u <= 0x200A) || u == 0x2028 || u == 0x2029 || u == 0x202F
        || u == 0x205F || u == 0x3000
}

/// `s` without leading and trailing white space.
pub open spec fn trim(s: Seq<char>) -> Seq<char>
    decreases s.len(),
{
    if s.len() > 0 && white_space(s[0]) {
        trim(s.drop_first())
    } else if s.len() > 0 && white_space(s.last()) {
        trim(s.drop_last())
    } else {
        s
    }
}

/// Index of the first `c` in `s`, if any.
pub open spec fn first_of<A>(s: Seq<A>, c: A) -> Option<int>
    decreases s.len(),
{
    if s.len() == 0 {
        None
    } else if s[0] == c {
        Some(0)
    } else {
        match first_of(s.drop_first(), c) {
            Some(i) => Some(i + 1),
            None => None,
        }
    }
}

/// Index of the last `c` in `s`, if any.
pub open spec fn last_of(s: Seq<char>, c: char) -> Option<int>
    decreases s.len(),
{
    if s.len() == 0 {
        None
    } else if s.last() == c {
        Some(s.len() - 1)
    } else {
        last_of(s.drop_last(), c)
    }
}

/// One comma-separated segment read as `key: value`: both sides trimmed, split
/// at the first colon. A segment without a colon (an empty one among them)
/// gives nothing.
pub open spec fn field_of(seg: Seq<char>) -> Option<(Seq<char>, Seq<char>)> {
    let p = trim(seg);
    match first_of(p, ':') {
        Some(i) => Some((trim(p.subrange(0, i)), trim(p.subrange(i + 1, p.len() as int)))),
        None => None,
    }
}

/// The `key: value` pairs of a `"key: value, key: value"` string, in order.
pub open spec fn fields_of(s: Seq<char>) -> Seq<(Seq<char>, Seq<char>)>
    decreases s.len(),
    via fields_of_decreases
{
    let k = match first_of(s, ',') {
        Some(i) => i,
        None => s.len() as int,
    };
    let rest = if k < s.len() {
        fields_of(s.subrange(k + 1, s.len() as int))
    } else {
        Seq::empty()
    };
    match field_of(s.subrange(0, k)) {
        Some(f) => seq![f] + rest,
        None => rest,
    }
}

#[via_fn]
proof fn fields_of_decreases(s: Seq<char>) {
    lemma_first_of_bounds(s, ',');
}

/// What `fields_from_debug` keeps of a debug rendering: what lies between the
/// first `{` and the last `}`, trimmed.
pub open spec fn debug_body(s: Seq<char>) -> Seq<char> {
    let start = match first_of(s, '{') {
        Some(i) => i + 1,
        None => 0,
    };
    let end = match last_of(s, '}') {
        Some(j) => j,
        None => s.len() as int,
    };
    if start <= end {
        trim(s.subrange(start, end))
    } else {
        Seq::empty()
    }
}

pub open spec fn pair_view(p: (&str, &str)) -> (Seq<char>, Seq<char>) {
    (p.0@, p.1@)
}

pub proof fn lemma_first_of_bounds<A>(s: Seq<A>, c: A)
    ensures
        match first_of(s, c) {
            Some(i) => 0 <= i < s.len() && s[i] == c,
            None => true,
        },
    decreases s.len(),
{
    if s.len() > 0 && s[0] != c {
        lemma_first_of_bounds(s.drop_first(), c);
    }
}

/// `first_of` is the index `k` before which no `c` stands.
pub proof fn lemma_first_of_at<A>(s: Seq<A>, c: A, k: int)
    requires
        0 <= k <= s.len(),
        forall|i: int| 0 <= i < k ==> s[i] != c,
        k < s.len() ==> s[k] == c,
    ensures
        first_of(s, c) == (if k < s.len() { Some(k) } else { None::<int> }),
    decreases s.len(),
{
    if s.len() > 0 && k > 0 {
        let t = s.drop_first();
        assert forall|i: int| 0 <= i < k - 1 implies t[i] != c by {
            assert(s[i + 1] != c);
        }
        lemma_first_of_at(t, c, k - 1);
    }
}

/// `last_of` is the index `k` after which no `c` stands.
proof fn lemma_last_of_at(s: Seq<char>, c: char, k: int)
    requires
        -1 <= k < s.len(),
        forall|i: int| k < i < s.len() ==> s[i] != c,
        k >= 0 ==> s[k] == c,
    ensures
        last_of(s, c) == (if k >= 0 { Some(k) } else { None::<int> }),
    decreases s.len(),
{
    if s.len() > 0 && k < s.len() - 1 {
        let t = s.drop_last();
        assert forall|i: int| k < i < t.len() implies t[i] != c by {
            assert(s[i] != c);
        }
        lemma_last_of_at(t, c, k);
    }
}

/// The characters of `s`, one per element.
fn chars_of(s: &str) -> (cs: Vec<char>)
    ensures
        cs@ == s@,
{
    let n = s.unicode_len();
    let mut cs: Vec<char> = Vec::new();
    let mut i: usize = 0;
    while i < n
        invariant
            n == s@.len(),
            i <= n,
            cs@ == s@.subrange(0, i as int),
        decreases n - i,
    {
        cs.push(s.get_char(i));
        i = i + 1;
    }
    assert(cs@ =~= s@);
    cs
}

/// First index in `lo..hi` that holds `c`, or `hi`.
fn find_char(cs: &Vec<char>, lo: usize, hi: usize, c: char) -> (k: usize)
    requires
        lo <= hi <= cs@.len(),
    ensures
        lo <= k <= hi,
        first_of(cs@.subrange(lo as int, hi as int), c) == (if k < hi {
            Some(k - lo)
        } else {
            None::<int>
        }),
{
    let mut k = lo;
    while k < hi && cs[k] != c
        invariant
            lo <= k <= hi <= cs@.len(),
            forall|i: int| lo <= i < k ==> cs@[i] != c,
        decreases hi - k,
    {
        k = k + 1;
    }
    let ghost seg = cs@.subrange(lo as int, hi as int);
    proof {
        assert forall|i: int| 0 <= i < k - lo implies seg[i] != c by {
            assert(cs@[lo + i] != c);
        }
        lemma_first_of_at(seg, c, k - lo);
    }
    k
}

/// Last index in `0..hi` that holds `c`, if any.
fn rfind_char(cs: &Vec<char>, hi: usize, c: char) -> (r: Option<usize>)
    requires
        hi <= cs@.len(),
    ensures
        match r {
            Some(k) => k < hi && last_of(cs@.subrange(0, hi as int), c) == Some(k as int),
            None => last_of(cs@.subrange(0, hi as int), c) == None::<int>,
        },
{
    let mut k = hi;
    while k > 0 && cs[k - 1] != c
        invariant
            k <= hi <= cs@.len(),
            forall|i: int| k <= i < hi ==> cs@[i] != c,
        decreases k,
    {
        k = k - 1;
    }
    let ghost seg = cs@.subrange(0, hi as int);
    proof {
        lemma_last_of_at(seg, c, k - 1);
    }
    if k == 0 {
        None
    } else {
        Some(k - 1)
    }
}

/// Bounds of the trimmed part of `lo..hi`.
fn trim_range(cs: &Vec<char>, lo: usize, hi: usize) -> (r: (usize, usize))
    requires
        lo <= hi <= cs@.len(),
    ensures
        lo <= r.0 <= r.1 <= hi,
        cs@.subrange(r.0 as int, r.1 as int) == trim(cs@.subrange(lo as int, hi as int)),
{
    let mut a = lo;
    while a < hi && is_white(cs[a])
        invariant
            lo <= a <= hi <= cs@.len(),
            trim(cs@.subrange(a as int, hi as int)) == trim(cs@.subrange(lo as int, hi as int)),
        decreases hi - a,
    {
        assert(cs@.subrange(a as int, hi as int).drop_first() =~= cs@.subrange(a + 1, hi as int));
        a = a + 1;
    }
    let mut b = hi;
    while b > a && is_white(cs[b - 1])
        invariant
            lo <= a <= b <= hi <= cs@.len(),
            a < b ==> !white_space(cs@[a as int]),
            trim(cs@.subrange(a as int, b as int)) == trim(cs@.subrange(lo as int, hi as int)),
        decreases b - a,
    {
        assert(cs@.subrange(a as int, b as int).drop_last() =~= cs@.subrange(a as int, b - 1));
        b = b - 1;
    }
    (a, b)
}

/// The field of the segment `lo..hi` of `s`, whose characters are `cs`.
fn field_in<'a>(s: &'a str, cs: &Vec<char>, lo: usize, hi: usize) -> (r: Option<(&'a str, &'a str)>)
    requires
        cs@ == s@,
        lo <= hi <= cs@.len(),
    ensures
        match r {
            Some(p) => field_of(s@.subrange(lo as int, hi as int)) == Some(pair_view(p)),
            None => field_of(s@.subrange(lo as int, hi as int)) == None::<(Seq<char>, Seq<char>)>,
        },
{
    let (a, b) = trim_range(cs, lo, hi);
    let c = find_char(cs, a, b, ':');
    if c == b {
        return None;
    }
    let (ka, kb) = trim_range(cs, a, c);
    let (va, vb) = trim_range(cs, c + 1, b);
    let ghost p = cs@.subrange(a as int, b as int);
    assert(p.subrange(0, c - a) =~= cs@.subrange(a as int, c as int));
    assert(p.subrange(c - a + 1, p.len() as int) =~= cs@.subrange(c + 1, b as int));
    let key = s.substring_char(ka, kb);
    let value = s.substring_char(va, vb);
    Some((key, value))
}

/// Splits a `"key: value, key: value"` string on commas, then each segment at
/// its first colon, trimming both sides; segments without a colon are dropped.
pub fn parse_fields(s: &str) -> (r: Vec<(&str, &str)>)
    ensures
        r@.map_values(|p: (&str, &str)| pair_view(p)) == fields_of(s@),
{
    let cs = chars_of(s);
    let n = cs.len();
    let mut out: Vec<(&str, &str)> = Vec::new();
    let mut start: usize = 0;
    assert(s@.subrange(0, n as int) =~= s@);
    assert(out@.map_values(|p: (&str, &str)| pair_view(p)) + fields_of(s@) =~= fields_of(s@));
    loop
        invariant
            cs@ == s@,
            n == cs@.len(),
            start <= n,
            out@.map_values(|p: (&str, &str)| pair_view(p)) + fields_of(s@.subrange(start as int, n as int))
                == fields_of(s@),
        decreases n - start,
    {
        let k = find_char(&cs, start, n, ',');
        let ghost rest = s@.subrange(start as int, n as int);
        let ghost before = out@.map_values(|p: (&str, &str)| pair_view(p));
        assert(rest.subrange(0, k - start) =~= s@.subrange(start as int, k as int));
        assert(k < n ==> rest.subrange(k - start + 1, rest.len() as int) =~= s@.subrange(k + 1, n as int));
        let f = field_in(s, &cs, start, k);
        match f {
            Some(p) => {
                out.push(p);
                assert(out@.map_values(|p: (&str, &str)| pair_view(p)) =~= before.push(pair_view(p)));
            },
            None => {},
        }
        if k == n {
            assert(out@.map_values(|p: (&str, &str)| pair_view(p)) + Seq::<(Seq<char>, Seq<char>)>::empty()
                =~= out@.map_values(|p: (&str, &str)| pair_view(p)));
            return out;
        }
        start = k + 1;
    }
}

/// The field text of a decoded message from its debug rendering
/// `NAME_DATA { a: 1, b: 2 }`: what lies between the first `{` and the last
/// `}`, trimmed. Without a `{` the text starts at the beginning, without a `}`
/// it runs to the end.
pub fn fields_from_debug(debug: &str) -> (r: &str)
    ensures
        r@ == debug_body(debug@),
{
    let cs = chars_of(debug);
    let n = cs.len();
    assert(cs@.subrange(0, n as int) =~= cs@);
    let open = find_char(&cs, 0, n, '{');
    let start = if open < n {
        open + 1
    } else {
        0
    };
    let end = match rfind_char(&cs, n, '}') {
        Some(j) => j,
        None => n,
    };
    if start <= end {
        let (a, b) = trim_range(&cs, start, end);
        debug.substring_char(a, b)
    } else {
        debug.substring_char(0, 0)
    }
}

} // verus!
