//! Paths as slash-separated text.
//!
//! A path is a `String` whose components are separated by `/`. Joining
//! follows the rules that `std::path` applies on Unix. The file name and
//! the extension agree with `std::path` on every path that does not end in
//! `/` or in `/.`; for such a path `std::path` goes back to the component
//! in front, while here it names no file.

use vstd::prelude::*;
use vstd::string::*;

verus! {

/// Index just past the last occurrence of `c` in `s`; 0 when `c` does not occur.
pub open spec fn after_last(s: Seq<char>, c: char) -> int
    decreases s.len(),
{
    if s.len() == 0 {
        0
    } else if s.last() == c {
        s.len() as int
    } else {
        after_last(s.drop_last(), c)
    }
}

/// `after_last` marks the start of the longest tail of `s` that is free of `c`.
pub proof fn lemma_after_last(s: Seq<char>, c: char)
    ensures
        0 <= after_last(s, c) <= s.len(),
        after_last(s, c) > 0 ==> s[after_last(s, c) - 1] == c,
        forall|j: int| after_last(s, c) <= j < s.len() ==> s[j] != c,
    decreases s.len(),
{
    if s.len() > 0 && s.last() != c {
        let t = s.drop_last();
        lemma_after_last(t, c);
        assert forall|j: int| after_last(s, c) <= j < s.len() implies s[j] != c by {
            if j < t.len() {
                assert(t[j] == s[j]);
            }
        }
    }
}

/// A position that is preceded by `c` (or is the start) and followed by no `c` is `after_last`.
pub proof fn lemma_after_last_unique(s: Seq<char>, c: char, k: int)
    requires
        0 <= k <= s.len(),
        k > 0 ==> s[k - 1] == c,
        forall|j: int| k <= j < s.len() ==> s[j] != c,
    ensures
        after_last(s, c) == k,
    decreases s.len(),
{
    if s.len() > 0 && s.last() != c {
        let t = s.drop_last();
        assert(forall|j: int| 0 <= j < t.len() ==> t[j] == s[j]);
        lemma_after_last_unique(t, c, k);
    }
}

/// The text `"."`.
pub open spec fn dot() -> Seq<char> {
    seq!['.']
}

/// The text `".."`.
pub open spec fn dot_dot() -> Seq<char> {
    seq!['.', '.']
}

/// The last component of a path: the text after the last `/`.
/// A path that ends in `/`, in `.` or in `..` names no file.
pub open spec fn file_name_of(path: Seq<char>) -> Option<Seq<char>> {
    let name = path.subrange(after_last(path, '/'), path.len() as int);
    if name.len() == 0 || name == dot() || name == dot_dot() {
        None
    } else {
        Some(name)
    }
}

/// The extension of a file name: the text after its last `.`.
/// A name without `.`, or whose only `.` is its first character, has none.
pub open spec fn extension_of_name(name: Seq<char>) -> Option<Seq<char>> {
    let k = after_last(name, '.');
    if k <= 1 {
        None
    } else {
        Some(name.subrange(k, name.len() as int))
    }
}

/// The extension of the file that a path names.
pub open spec fn extension_of(path: Seq<char>) -> Option<Seq<char>> {
    match file_name_of(path) {
        Some(name) => extension_of_name(name),
        None => None,
    }
}

/// `base` extended by `child`. An absolute `child` replaces `base`; otherwise
/// one `/` separates the two unless `base` is empty or already ends in `/`.
pub open spec fn joined(base: Seq<char>, child: Seq<char>) -> Seq<char> {
    if child.len() > 0 && child[0] == '/' {
        child
    } else if base.len() == 0 || base.last() == '/' {
        base + child
    } else {
        base + seq!['/'] + child
    }
}

/// A text that can stand as a single path component below a directory.
pub open spec fn is_plain_name(name: Seq<char>) -> bool {
    &&& name.len() > 0
    &&& name != dot()
    &&& name != dot_dot()
    &&& forall|i: int| 0 <= i < name.len() ==> name[i] != '/'
}

/// The file name of a path is a plain name.
pub proof fn lemma_file_name_is_plain(path: Seq<char>)
    requires
        file_name_of(path) is Some,
    ensures
        is_plain_name(file_name_of(path)->0),
{
    lemma_after_last(path, '/');
}

/// Joining a plain name to a directory and taking the file name gives the name back.
pub proof fn lemma_file_name_of_joined(base: Seq<char>, name: Seq<char>)
    requires
        is_plain_name(name),
    ensures
        file_name_of(joined(base, name)) == Some(name),
{
    let p = joined(base, name);
    let k = p.len() - name.len();
    assert(forall|j: int| k <= j < p.len() ==> p[j] == name[j - k]);
    if k > 0 {
        assert(p[k - 1] == '/');
    }
    lemma_after_last_unique(p, '/', k);
    assert(p.subrange(k, p.len() as int) =~= name);
}

/// Position just past the last `c` in `s`.
pub fn find_after_last(s: &str, c: char) -> (k: usize)
    ensures
        k == after_last(s@, c),
{
    let n: usize = s.unicode_len();
    let mut k: usize = n;
    while k > 0
        invariant
            k <= n,
            n == s@.len(),
            forall|j: int| k <= j < n ==> s@[j] != c,
        decreases k,
    {
        if s.get_char(k - 1) == c {
            proof {
                lemma_after_last_unique(s@, c, k as int);
            }
            return k;
        }
        k -= 1;
    }
    proof {
        lemma_after_last_unique(s@, c, 0);
    }
    0
}

/// The last component of `path`, if it names a file.
pub fn file_name(path: &str) -> (r: Option<&str>)
    ensures
        r is Some == file_name_of(path@) is Some,
        r matches Some(name) ==> Some(name@) == file_name_of(path@),
{
    let n: usize = path.unicode_len();
    let k: usize = find_after_last(path, '/');
    proof {
        lemma_after_last(path@, '/');
    }
    let name: &str = path.substring_char(k, n);
    let len: usize = n - k;
    if len == 0 {
        return None;
    }
    if len == 1 && name.get_char(0) == '.' {
        assert(name@ =~= dot());
        return None;
    }
    if len == 2 && name.get_char(0) == '.' && name.get_char(1) == '.' {
        assert(name@ =~= dot_dot());
        return None;
    }
    assert(name@ != dot()) by {
        if name@ == dot() {
            assert(name@.len() == 1 && name@[0] == '.');
        }
    }
    assert(name@ != dot_dot()) by {
        if name@ == dot_dot() {
            assert(name@.len() == 2 && name@[0] == '.' && name@[1] == '.');
        }
    }
    Some(name)
}

/// The extension of the file that `path` names, if it has one.
pub fn extension(path: &str) -> (r: Option<&str>)
    ensures
        r is Some == extension_of(path@) is Some,
        r matches Some(ext) ==> Some(ext@) == extension_of(path@),
{
    match file_name(path) {
        None => None,
        Some(name) => {
            let k: usize = find_after_last(name, '.');
            proof {
                lemma_after_last(name@, '.');
            }
            if k <= 1 {
                None
            } else {
                Some(name.substring_char(k, name.unicode_len()))
            }
        },
    }
}

/// Joins `child` to `base`.
pub fn join(base: &str, child: &str) -> (r: String)
    ensures
        r@ == joined(base@, child@),
{
    proof {
        reveal_strlit("/");
    }
    let child_len: usize = child.unicode_len();
    if child_len > 0 && child.get_char(0) == '/' {
        return String::from_str(child);
    }
    let base_len: usize = base.unicode_len();
    let mut r: String = String::from_str(base);
    if base_len > 0 && base.get_char(base_len - 1) != '/' {
        r.append("/");
        assert("/"@ =~= seq!['/']);
    }
    r.append(child);
    r
}

} // verus!
