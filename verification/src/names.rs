use vstd::prelude::*;
use vstd::string::*;

verus! {

/// The base name of a path written with `/` separators: the characters after
/// the last `/`, the whole name when no `/` occurs, and empty for a name that
/// ends in `/` (a directory entry).
pub open spec fn basename_of(name: Seq<char>) -> Seq<char>
    decreases name.len(),
{
    if name.len() == 0 {
        Seq::<char>::empty()
    } else if name.last() == '/' {
        Seq::<char>::empty()
    } else {
        basename_of(name.drop_last()).push(name.last())
    }
}

/// Whether a file name carries the `zip` extension, exactly and
/// case-sensitively: it ends in `.zip`, and the dot is not the first
/// character (a bare `.zip` is a dotfile without an extension, as std's
/// path handling reads names).
pub open spec fn is_zip_name(name: Seq<char>) -> bool {
    &&& name.len() > 4
    &&& name[name.len() - 4] == '.'
    &&& name[name.len() - 3] == 'z'
    &&& name[name.len() - 2] == 'i'
    &&& name[name.len() - 1] == 'p'
}

/// The suffix of `name` that starts at `k` is its base name, provided no `/`
/// occurs at or after `k` and `k` sits right after a `/` (or at the start).
proof fn lemma_basename_suffix(name: Seq<char>, k: int)
    requires
        0 <= k <= name.len(),
        k == 0 || name[k - 1] == '/',
        forall|j: int| k <= j < name.len() ==> name[j] != '/',
    ensures
        basename_of(name) == name.subrange(k, name.len() as int),
    decreases name.len(),
{
    if name.len() == 0 {
        assert(name.subrange(0, 0) =~= Seq::<char>::empty());
    } else if name.last() == '/' {
        assert(k == name.len());
        assert(name.subrange(k, name.len() as int) =~= Seq::<char>::empty());
    } else {
        assert(k < name.len());
        let d = name.drop_last();
        lemma_basename_suffix(d, k);
        assert(name.subrange(k, name.len() as int) =~= d.subrange(k, d.len() as int).push(
            name.last(),
        ));
    }
}

/// The base name of a file or archive-entry name: everything after the last
/// `/` separator.
pub fn basename(name: &str) -> (r: String)
    ensures
        r@ == basename_of(name@),
{
    let n = name.unicode_len();
    let mut start: usize = 0;
    let mut i: usize = 0;
    while i < n
        invariant
            n == name@.len(),
            0 <= start <= i <= n,
            start == 0 || name@[start - 1] == '/',
            forall|j: int| start <= j < i ==> name@[j] != '/',
        decreases n - i,
    {
        if name.get_char(i) == '/' {
            start = i + 1;
        }
        i += 1;
    }
    proof {
        lemma_basename_suffix(name@, start as int);
    }
    let b = name.substring_char(start, n);
    b.to_owned()
}

/// Whether a file name names a zip archive: its extension is exactly `zip`.
pub fn is_zip_file_name(name: &str) -> (r: bool)
    ensures
        r == is_zip_name(name@),
{
    let n = name.unicode_len();
    if n <= 4 {
        return false;
    }
    name.get_char(n - 4) == '.' && name.get_char(n - 3) == 'z' && name.get_char(n - 2) == 'i'
        && name.get_char(n - 1) == 'p'
}

} // verus!
