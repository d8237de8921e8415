use vstd::prelude::*;
use vstd::utf8::*;

verus! {

/// The characters with the Unicode `White_Space` property.
pub open spec fn is_white_space(c: char) -> bool {
    let u = c as u32;
    ||| 0x9 <= u <= 0xd
    ||| u == 0x20
    ||| u == 0x85
    ||| u == 0xa0
    ||| u == 0x1680
    ||| 0x2000 <= u <= 0x200a
    ||| u == 0x2028
    ||| u == 0x2029
    ||| u == 0x202f
    ||| u == 0x205f
    ||| u == 0x3000
}

/// `s` without its leading white space.
pub open spec fn trim_start(s: Seq<char>) -> Seq<char>
    decreases s.len(),
{
    if s.len() > 0 && is_white_space(s[0]) {
        trim_start(s.drop_first())
    } else {
        s
    }
}

/// `s` without its trailing white space.
pub open spec fn trim_end(s: Seq<char>) -> Seq<char>
    decreases s.len(),
{
    if s.len() > 0 && is_white_space(s.last()) {
        trim_end(s.drop_last())
    } else {
        s
    }
}

/// `s` without its leading and trailing white space.
pub open spec fn trim(s: Seq<char>) -> Seq<char> {
    trim_end(trim_start(s))
}

/// `pat` occurs in `hay` as a contiguous run of characters.
pub open spec fn contains_chars(hay: Seq<char>, pat: Seq<char>) -> bool {
    exists|i: int| 0 <= i && i + pat.len() <= hay.len() && #[trigger] hay.subrange(i, i + pat.len()) == pat
}

/// Every character of `s` has the `White_Space` property.
pub open spec fn all_white_space(s: Seq<char>) -> bool {
    forall|j: int| 0 <= j < s.len() ==> is_white_space(#[trigger] s[j])
}

/// Trimming the end leaves a text that is empty or ends in a character
/// without the `White_Space` property, and what it removed is a run of white
/// space at the end of `s`.
pub proof fn lemma_trim_end_shape(s: Seq<char>)
    ensures
        trim_end(s).len() <= s.len(),
        s == trim_end(s) + s.subrange(trim_end(s).len() as int, s.len() as int),
        all_white_space(s.subrange(trim_end(s).len() as int, s.len() as int)),
        trim_end(s).len() == 0 || !is_white_space(trim_end(s).last()),
    decreases s.len(),
{
    if s.len() > 0 && is_white_space(s.last()) {
        let d = s.drop_last();
        lemma_trim_end_shape(d);
        let t = trim_end(d);
        assert(trim_end(s) == t);
        let rest = s.subrange(t.len() as int, s.len() as int);
        let dr = d.subrange(t.len() as int, d.len() as int);
        assert(rest =~= dr.push(s.last()));
        assert(s =~= d.push(s.last()));
        assert(t + dr.push(s.last()) =~= (t + dr).push(s.last()));
        assert(s =~= t + rest);
    } else {
        assert(s.subrange(s.len() as int, s.len() as int) =~= Seq::<char>::empty());
        assert(s =~= s + Seq::<char>::empty());
    }
}

/// Trimming the start leaves a text that is empty or starts with a
/// character without the `White_Space` property, and what it removed is a run
/// of white space at the start of `s`.
pub proof fn lemma_trim_start_shape(s: Seq<char>)
    ensures
        trim_start(s).len() <= s.len(),
        s == s.subrange(0, s.len() - trim_start(s).len()) + trim_start(s),
        all_white_space(s.subrange(0, s.len() - trim_start(s).len())),
        trim_start(s).len() == 0 || !is_white_space(trim_start(s)[0]),
    decreases s.len(),
{
    if s.len() > 0 && is_white_space(s[0]) {
        let d = s.drop_first();
        lemma_trim_start_shape(d);
        let t = trim_start(d);
        assert(trim_start(s) == t);
        let front = s.subrange(0, s.len() - t.len());
        let df = d.subrange(0, d.len() - t.len());
        assert(front =~= seq![s[0]] + df);
        assert(s =~= seq![s[0]] + d);
        assert(seq![s[0]] + df + t =~= seq![s[0]] + (df + t));
        assert(s =~= front + t);
    } else {
        assert(s.subrange(0, 0) =~= Seq::<char>::empty());
        assert(s =~= Seq::<char>::empty() + s);
    }
}

/// White space before a text that does not start with white space is
/// trimmed away, and nothing more.
pub proof fn lemma_trim_start_skips(p: Seq<char>, r: Seq<char>)
    requires
        all_white_space(p),
        r.len() == 0 || !is_white_space(r[0]),
    ensures
        trim_start(p + r) == r,
    decreases p.len(),
{
    if p.len() == 0 {
        assert(p + r =~= r);
    } else {
        assert((p + r)[0] == p[0]);
        assert((p + r).drop_first() =~= p.drop_first() + r);
        lemma_trim_start_skips(p.drop_first(), r);
    }
}

/// White space after a text that does not end in white space is trimmed
/// away, and nothing more.
pub proof fn lemma_trim_end_skips(r: Seq<char>, q: Seq<char>)
    requires
        all_white_space(q),
        r.len() == 0 || !is_white_space(r.last()),
    ensures
        trim_end(r + q) == r,
    decreases q.len(),
{
    if q.len() == 0 {
        assert(r + q =~= r);
    } else {
        assert((r + q).last() == q.last());
        assert((r + q).drop_last() =~= r + q.drop_last());
        lemma_trim_end_skips(r, q.drop_last());
    }
}

/// Runs of white space around a text that neither starts nor ends with
/// white space are exactly what trimming removes.
pub proof fn lemma_trim_strips_white_runs(p: Seq<char>, w: Seq<char>, q: Seq<char>)
    requires
        all_white_space(p),
        all_white_space(q),
        w.len() == 0 || (!is_white_space(w[0]) && !is_white_space(w.last())),
    ensures
        trim(p + w + q) == w,
{
    if w.len() == 0 {
        assert(p + w + q =~= p + q);
        assert(all_white_space(p + q));
        lemma_trim_start_skips(p + q, Seq::<char>::empty());
        assert(p + q =~= (p + q) + Seq::<char>::empty());
        assert(trim_end(Seq::<char>::empty()) == Seq::<char>::empty());
    } else {
        assert((w + q)[0] == w[0]);
        assert(p + w + q =~= p + (w + q));
        lemma_trim_start_skips(p, w + q);
        lemma_trim_end_skips(w, q);
    }
}

/// `pat` occurs in `hay` exactly when `hay` is some text, then `pat`, then
/// some text.
pub proof fn lemma_contains_iff_infix(hay: Seq<char>, pat: Seq<char>)
    ensures
        contains_chars(hay, pat) <==> exists|x: Seq<char>, y: Seq<char>| hay == x + pat + y,
{
    if contains_chars(hay, pat) {
        let i = choose|i: int|
            0 <= i && i + pat.len() <= hay.len() && #[trigger] hay.subrange(i, i + pat.len()) == pat;
        let x = hay.subrange(0, i);
        let y = hay.subrange(i + pat.len(), hay.len() as int);
        assert(hay =~= x + pat + y);
    }
    if exists|x: Seq<char>, y: Seq<char>| hay == x + pat + y {
        let (x, y) = choose|x: Seq<char>, y: Seq<char>| hay == x + pat + y;
        lemma_contains_infix(x, pat, y);
    }
}

/// A text occurs in any text made of something, it, and something.
pub proof fn lemma_contains_infix(x: Seq<char>, p: Seq<char>, y: Seq<char>)
    ensures
        contains_chars(x + p + y, p),
{
    let h = x + p + y;
    let i = x.len() as int;
    assert(h.subrange(i, i + p.len()) =~= p);
}

/// The lower-case form of a text, as `str::to_lowercase` maps it.
pub uninterp spec fn lowercase(s: Seq<char>) -> Seq<char>;

/// Trusted: `char::is_whitespace`, which std documents as true exactly for
/// the characters with the Unicode `White_Space` property (listed in
/// `is_white_space`).
#[verifier::external_body]
pub fn char_is_white_space(c: char) -> (b: bool)
    ensures
        b == is_white_space(c),
{
    c.is_whitespace()
}

/// Trusted: `str::to_lowercase`. Its Unicode case mapping is not written out
/// here; the result is named `lowercase` of the input's characters.
#[verifier::external_body]
pub fn to_lowercase(s: &str) -> (res: String)
    ensures
        res@ == lowercase(s@),
{
    s.to_lowercase()
}

/// Trusted: `std::str::from_utf8`, which succeeds exactly on valid UTF-8 and
/// then yields the text those bytes encode.
#[verifier::external_body]
pub fn str_from_utf8(bytes: &[u8]) -> (res: Option<&str>)
    ensures
        res is Some <==> valid_utf8(bytes@),
        res matches Some(s) ==> s@ == decode_utf8(bytes@),
{
    std::str::from_utf8(bytes).ok()
}

/// The characters of a string, in order.
pub fn chars_of(s: &str) -> (res: Vec<char>)
    ensures
        res@ == s@,
{
    let mut res: Vec<char> = Vec::new();
    for c in it: s.chars()
        invariant
            res@ == it.seq().take(it.index() as int),
            it.seq() == s@,
    {
        res.push(c);
    }
    res
}

/// Whether `pat` occurs in `hay`, as `str::find` reports it with `is_some`.
pub fn contains(hay: &Vec<char>, pat: &Vec<char>) -> (res: bool)
    ensures
        res == contains_chars(hay@, pat@),
{
    if pat.len() > hay.len() {
        return false;
    }
    if pat.len() == 0 {
        assert(hay@.subrange(0, 0int + pat@.len()) =~= pat@);
        return true;
    }
    let last = hay.len() - pat.len();
    let mut i: usize = 0;
    while i <= last
        invariant
            last == hay@.len() - pat@.len(),
            0 < pat@.len() <= hay@.len(),
            hay@.len() <= usize::MAX,
            i <= last + 1,
            forall|k: int| 0 <= k < i ==> #[trigger] hay@.subrange(k, k + pat@.len()) != pat@,
        decreases last + 1 - i,
    {
        let mut j: usize = 0;
        let mut same = true;
        while j < pat.len()
            invariant
                i <= last,
                last == hay@.len() - pat@.len(),
                0 < pat@.len() <= hay@.len(),
                hay@.len() <= usize::MAX,
                j <= pat@.len(),
                same <==> forall|m: int| 0 <= m < j ==> hay@[i + m] == pat@[m],
            decreases pat@.len() - j,
        {
            if hay[i + j] != pat[j] {
                same = false;
            }
            j = j + 1;
        }
        if same {
            assert(hay@.subrange(i as int, i + pat@.len()) =~= pat@);
            return true;
        }
        assert(hay@.subrange(i as int, i + pat@.len()) != pat@) by {
            let m = choose|m: int| 0 <= m < pat@.len() && hay@[i + m] != pat@[m];
            assert(hay@.subrange(i as int, i + pat@.len())[m] == hay@[i + m]);
        }
        i = i + 1;
    }
    false
}

/// The bounds of `chars[lo..hi]` with the white space at both ends left out.
pub fn trim_bounds(chars: &Vec<char>, lo: usize, hi: usize) -> (res: (usize, usize))
    requires
        lo <= hi <= chars@.len(),
    ensures
        lo <= res.0 <= res.1 <= hi,
        chars@.subrange(res.0 as int, res.1 as int) == trim(chars@.subrange(lo as int, hi as int)),
{
    let mut a = lo;
    while a < hi && char_is_white_space(chars[a])
        invariant
            lo <= a <= hi <= chars@.len(),
            trim_start(chars@.subrange(lo as int, hi as int)) == trim_start(
                chars@.subrange(a as int, hi as int),
            ),
        decreases hi - a,
    {
        assert(chars@.subrange(a as int, hi as int).drop_first() =~= chars@.subrange(
            a + 1,
            hi as int,
        ));
        a = a + 1;
    }
    assert(trim_start(chars@.subrange(a as int, hi as int)) == chars@.subrange(a as int, hi as int));
    let mut b = hi;
    while b > a && char_is_white_space(chars[b - 1])
        invariant
            lo <= a <= b <= hi <= chars@.len(),
            trim_end(chars@.subrange(a as int, hi as int)) == trim_end(
                chars@.subrange(a as int, b as int),
            ),
        decreases b - a,
    {
        assert(chars@.subrange(a as int, b as int).drop_last() =~= chars@.subrange(
            a as int,
            b - 1,
        ));
        b = b - 1;
    }
    assert(trim_end(chars@.subrange(a as int, b as int)) == chars@.subrange(a as int, b as int));
    (a, b)
}

} // verus!
