use vstd::prelude::*;

use crate::strutil::{spec_trim, trim_str};

verus! {

/// The position of the first backslash, if any.
pub open spec fn first_backslash(s: Seq<char>) -> Option<int> {
    if exists|i: int| 0 <= i < s.len() && s[i] == '\\' {
        Some(
            choose|i: int|
                0 <= i < s.len() && s[i] == '\\' && (forall|j: int| 0 <= j < i ==> s[j] != '\\'),
        )
    } else {
        None
    }
}

/// Extracts the user name from what the system's own account query
/// printed: the part after the first backslash on systems that prefix a
/// domain, otherwise the whole output — either way with surrounding
/// whitespace removed.
pub fn parse_whoami_output(raw: &str) -> (r: String)
    ensures
        match first_backslash(raw@) {
            Some(i) => r@ == spec_trim(raw@.skip(i + 1)),
            None => r@ == spec_trim(raw@),
        },
{
    let n = raw.unicode_len();
    let mut i: usize = 0;
    loop
        invariant
            n == raw@.len(),
            i <= n,
            forall|j: int| 0 <= j < i ==> raw@[j] != '\\',
        ensures
            i <= n,
            forall|j: int| 0 <= j < i ==> raw@[j] != '\\',
            i < n ==> raw@[i as int] == '\\',
            i == n ==> forall|j: int| 0 <= j < n ==> raw@[j] != '\\',
        decreases n - i,
    {
        if i == n {
            break;
        }
        if raw.get_char(i) == '\\' {
            break;
        }
        i += 1;
    }
    if i == n {
        proof {
            assert(first_backslash(raw@) is None);
        }
        trim_str(raw)
    } else {
        proof {
            let c = choose|c: int|
                0 <= c < raw@.len() && raw@[c] == '\\' && (forall|j: int|
                    0 <= j < c ==> raw@[j] != '\\');
            assert(c == i) by {
                if c < i {
                    assert(raw@[c] != '\\');
                }
                if c > i {
                    assert(raw@[i as int] != '\\');
                }
            }
        }
        let rest = raw.substring_char(i + 1, n);
        proof {
            assert(rest@ =~= raw@.skip(i + 1));
        }
        trim_str(rest)
    }
}

} // verus!
