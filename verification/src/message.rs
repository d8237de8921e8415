use vstd::prelude::*;
use crate::text::{all_white_space, chars_of, is_white_space, lemma_trim_strips_white_runs, trim, trim_bounds};

verus! {

/// `s[k]` is a colon and no other character of `s` is.
pub open spec fn single_colon_at(s: Seq<char>, k: int) -> bool {
    &&& 0 <= k < s.len()
    &&& s[k] == ':'
    &&& forall|j: int| 0 <= j < s.len() && j != k ==> s[j] != ':'
}

/// The two parts of a message `<name>:<state>`, each without white space at
/// its ends; none unless the text holds exactly one colon (so that splitting
/// it at colons gives exactly two pieces).
pub open spec fn spec_split_message(s: Seq<char>) -> Option<(Seq<char>, Seq<char>)> {
    if exists|k: int| single_colon_at(s, k) {
        let k = choose|k: int| single_colon_at(s, k);
        Some((trim(s.subrange(0, k)), trim(s.subrange(k + 1, s.len() as int))))
    } else {
        None
    }
}

/// Splits `<name>:<state>` at its one colon and trims both parts.
pub fn split_message<'a>(s: &'a str) -> (res: Option<(&'a str, &'a str)>)
    ensures
        match spec_split_message(s@) {
            Some(parts) => res matches Some(r) && r.0@ == parts.0 && r.1@ == parts.1,
            None => res is None,
        },
{
    let chars = chars_of(s);
    let n = chars.len();
    let mut colon: Option<usize> = None;
    let mut i: usize = 0;
    while i < n
        invariant
            n == chars@.len(),
            chars@ == s@,
            i <= n,
            colon matches Some(k) ==> k < i && chars@[k as int] == ':' && (forall|j: int|
                0 <= j < i && j != k ==> chars@[j] != ':'),
            colon is None ==> forall|j: int| 0 <= j < i ==> chars@[j] != ':',
        decreases n - i,
    {
        if chars[i] == ':' {
            if colon.is_some() {
                proof {
                    let k = colon->0;
                    assert forall|m: int| !single_colon_at(s@, m) by {
                        if single_colon_at(s@, m) {
                            assert(m == k || m == i);
                        }
                    }
                }
                return None;
            }
            colon = Some(i);
        }
        i = i + 1;
    }
    match colon {
        None => {
            assert forall|m: int| !single_colon_at(s@, m) by {
                if single_colon_at(s@, m) {
                    assert(chars@[m] == ':');
                }
            }
            None
        },
        Some(k) => {
            assert(single_colon_at(s@, k as int));
            proof {
                let c = choose|m: int| single_colon_at(s@, m);
                assert(c == k);
            }
            let (a, b) = trim_bounds(&chars, 0, k);
            let (c, d) = trim_bounds(&chars, k + 1, n);
            Some((s.substring_char(a, b), s.substring_char(c, d)))
        },
    }
}

/// A message made of a name without colon, a colon, and a colon-free word
/// that neither starts nor ends with white space, with runs of white space
/// `p` before and `q` after the word, splits into the trimmed name and
/// exactly that word.
pub proof fn lemma_split_padded_message(name: Seq<char>, p: Seq<char>, w: Seq<char>, q: Seq<char>)
    requires
        forall|j: int| 0 <= j < name.len() ==> name[j] != ':',
        forall|j: int| 0 <= j < w.len() ==> w[j] != ':',
        all_white_space(p),
        all_white_space(q),
        w.len() == 0 || (!is_white_space(w[0]) && !is_white_space(w.last())),
    ensures
        spec_split_message(name + seq![':'] + p + w + q) == Some((trim(name), w)),
{
    let rest = p + w + q;
    let s = name + seq![':'] + rest;
    assert(s =~= name + seq![':'] + p + w + q);
    let k = name.len() as int;
    assert(!is_white_space(':'));
    assert forall|j: int| 0 <= j < rest.len() implies rest[j] != ':' by {
        if j < p.len() {
            assert(rest[j] == p[j]);
            assert(is_white_space(p[j]));
        } else if j < p.len() + w.len() {
            assert(rest[j] == w[j - p.len()]);
        } else {
            assert(rest[j] == q[j - p.len() - w.len()]);
            assert(is_white_space(q[j - p.len() - w.len()]));
        }
    }
    assert forall|j: int| 0 <= j < s.len() && j != k implies s[j] != ':' by {
        if j < k {
            assert(s[j] == name[j]);
        } else {
            assert(s[j] == rest[j - k - 1]);
        }
    }
    assert(single_colon_at(s, k));
    let c = choose|m: int| single_colon_at(s, m);
    assert(c == k) by {
        if c != k {
            assert(s[c] == ':');
        }
    }
    assert(s.subrange(0, k) =~= name);
    assert(s.subrange(k + 1, s.len() as int) =~= rest);
    lemma_trim_strips_white_runs(p, w, q);
}

} // verus!
