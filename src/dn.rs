//! Hierarchical keys: the parent key and the key relative to a parent.
use vstd::prelude::*;
use crate::text::{chars_of, has_suffix, string_of_range, trim, trimmed};

verus! {

/// Position of the first separator at or after `i`: a `,` that is neither
/// escaped by a backslash nor inside a quoted region.
pub open spec fn separator_from(s: Seq<char>, i: int, quoted: bool, escaped: bool) -> Option<int>
    decreases s.len() - i,
{
    if i < 0 || i >= s.len() {
        None
    } else if escaped {
        separator_from(s, i + 1, quoted, false)
    } else if s[i] == '\\' {
        separator_from(s, i + 1, quoted, true)
    } else if s[i] == '"' {
        separator_from(s, i + 1, !quoted, false)
    } else if s[i] == ',' && !quoted {
        Some(i)
    } else {
        separator_from(s, i + 1, quoted, false)
    }
}

/// The parent key of `dn`: what follows its first separator, trimmed; none
/// when there is no separator or nothing follows it.
pub open spec fn parent_key(dn: Seq<char>) -> Option<Seq<char>> {
    match separator_from(dn, 0, false, false) {
        Some(i) => {
            let p = trim(dn.subrange(i + 1, dn.len() as int));
            if p.len() == 0 {
                None
            } else {
                Some(p)
            }
        },
        None => None,
    }
}

/// The key of `dn` relative to `parent`: `dn` without the suffix `,parent`,
/// trimmed; `dn` trimmed when there is no parent or no such suffix.
pub open spec fn relative_key(dn: Seq<char>, parent: Option<Seq<char>>) -> Seq<char> {
    match parent {
        Some(p) => {
            let cut = dn.len() - p.len();
            if has_suffix(dn, p) && cut > 0 && dn[cut - 1] == ',' {
                trim(dn.subrange(0, cut - 1))
            } else {
                trim(dn)
            }
        },
        None => trim(dn),
    }
}

/// The parent key of a hierarchical key, if it has one.
pub fn get_parent_dn(dn: &str) -> (r: Option<String>)
    ensures
        r is Some <==> parent_key(dn@) is Some,
        r is Some ==> r->0@ == parent_key(dn@)->0,
{
    let s = chars_of(dn);
    let mut quoted = false;
    let mut escaped = false;
    let mut i: usize = 0;
    while i < s.len()
        invariant
            s@ == dn@,
            i <= s@.len(),
            separator_from(s@, 0, false, false) == separator_from(s@, i as int, quoted, escaped),
        decreases s@.len() - i,
    {
        let c = s[i];
        if escaped {
            escaped = false;
        } else if c == '\\' {
            escaped = true;
        } else if c == '"' {
            quoted = !quoted;
        } else if c == ',' && !quoted {
            let (a, b) = crate::text::trim_bounds(&s, i + 1, s.len());
            if a == b {
                return None;
            }
            return Some(string_of_range(&s, a, b));
        }
        i = i + 1;
    }
    None
}

/// The key of `dn` relative to `parent`.
pub fn compute_rdn(dn: &str, parent: Option<&str>) -> (r: String)
    ensures
        r@ == relative_key(dn@, match parent { Some(p) => Some(p@), None => None }),
{
    let s = chars_of(dn);
    match parent {
        Some(p) => {
            let pc = chars_of(p);
            if pc.len() < s.len() {
                let cut = s.len() - pc.len();
                let mut k: usize = 0;
                let mut same = true;
                while k < pc.len()
                    invariant
                        s@ == dn@,
                        pc@ == p@,
                        cut + pc@.len() == s@.len(),
                        s@.len() == s.len(),
                        k <= pc@.len(),
                        same == (forall|m: int| 0 <= m < k ==> s@[cut + m] == pc@[m]),
                    decreases pc@.len() - k,
                {
                    if s[cut + k] != pc[k] {
                        same = false;
                    }
                    k = k + 1;
                }
                proof {
                    let tail = s@.subrange(cut as int, s@.len() as int);
                    if same {
                        assert(tail =~= pc@);
                    } else {
                        let m = choose|m: int| 0 <= m < pc@.len() && s@[cut + m] != pc@[m];
                        assert(tail[m] != pc@[m]);
                    }
                }
                if same && s[cut - 1] == ',' {
                    return trimmed(&s, 0, cut - 1);
                }
            } else {
                proof {
                    if pc@.len() == s@.len() && has_suffix(s@, pc@) {
                        assert(s@.len() - pc@.len() == 0);
                    }
                }
            }
            let r = trimmed(&s, 0, s.len());
            assert(s@.subrange(0, s@.len() as int) =~= s@);
            r
        },
        None => {
            let r = trimmed(&s, 0, s.len());
            assert(s@.subrange(0, s@.len() as int) =~= s@);
            r
        },
    }
}

} // verus!
