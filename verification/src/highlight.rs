//! File-extension handling for the syntax-highlighting layer. The
//! highlighter itself renders through the terminal stack and lives with
//! the rest of the rendering code; the library only extracts and
//! normalizes extensions.

use vstd::prelude::*;
use crate::text::{lower_of, to_lowercase};

verus! {

/// The index of the last occurrence of `c` in `s`, or -1.
pub open spec fn last_index_of(s: Seq<char>, c: char) -> int
    decreases s.len(),
{
    if s.len() == 0 {
        -1
    } else if s.last() == c {
        s.len() - 1
    } else {
        last_index_of(s.drop_last(), c)
    }
}

/// What `get_file_extension` returns: the lowercased text after the last
/// dot of the final path component, provided that dot neither starts the
/// component nor ends the path.
pub open spec fn file_extension_spec(path: Seq<char>) -> Option<Seq<char>> {
    let name_start = last_index_of(path, '/') + 1;
    let dot = last_index_of(path, '.');
    if dot > name_start && dot + 1 < path.len() {
        Some(lower_of(path.subrange(dot + 1, path.len() as int)))
    } else {
        None
    }
}

pub proof fn lemma_last_index_bounds(s: Seq<char>, c: char)
    ensures
        -1 <= last_index_of(s, c) < s.len(),
        last_index_of(s, c) >= 0 ==> s[last_index_of(s, c)] == c,
        forall|i: int| last_index_of(s, c) < i < s.len() ==> s[i] != c,
    decreases s.len(),
{
    if s.len() == 0 {
    } else if s.last() == c {
    } else {
        lemma_last_index_bounds(s.drop_last(), c);
        assert(forall|i: int| 0 <= i < s.len() - 1 ==> s.drop_last()[i] == s[i]);
    }
}

/// Find the last occurrence of `c`, if any.
pub fn rfind_char(s: &str, c: char) -> (r: Option<usize>)
    ensures
        match r {
            Some(i) => i == last_index_of(s@, c),
            None => last_index_of(s@, c) == -1,
        },
{
    proof {
        lemma_last_index_bounds(s@, c);
    }
    let len = s.unicode_len();
    let mut i = len;
    while i > 0
        invariant
            0 <= i <= len,
            len == s@.len(),
            forall|q: int| i <= q < len ==> s@[q] != c,
        decreases i,
    {
        i -= 1;
        if s.get_char(i) == c {
            proof {
                assert(last_index_of(s@, c) == i) by {
                    lemma_last_index_bounds(s@, c);
                    if last_index_of(s@, c) > i {
                        assert(s@[last_index_of(s@, c)] != c);
                    }
                    if last_index_of(s@, c) < i {
                        assert(s@[i as int] != c);
                    }
                }
            }
            return Some(i);
        }
    }
    proof {
        if last_index_of(s@, c) >= 0 {
            assert(s@[last_index_of(s@, c)] != c);
        }
    }
    None
}

/// The lowercased extension of a file path: the text after the last dot
/// of the final component, unless the dot starts the component (a hidden
/// file) or ends the path.
pub fn get_file_extension(file_path: &str) -> (r: Option<String>)
    ensures
        match r {
            Some(e) => file_extension_spec(file_path@) == Some(e@),
            None => file_extension_spec(file_path@) is None,
        },
{
    let len = file_path.unicode_len();
    proof {
        lemma_last_index_bounds(file_path@, '/');
        lemma_last_index_bounds(file_path@, '.');
    }
    let name_start = match rfind_char(file_path, '/') {
        Some(i) => i + 1,
        None => 0,
    };
    let dot = match rfind_char(file_path, '.') {
        Some(i) => i,
        None => {
            return None;
        },
    };
    if dot > name_start && dot + 1 < len {
        let ext = file_path.substring_char(dot + 1, len);
        let lowered = to_lowercase(ext);
        proof {
            assert(ext@ == file_path@.subrange(dot + 1, len as int));
            assert(lowered@ == lower_of(file_path@.subrange(dot + 1, len as int)));
        }
        Some(lowered)
    } else {
        None
    }
}

} // verus!
