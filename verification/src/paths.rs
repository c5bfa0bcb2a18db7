use vstd::prelude::*;

use crate::text::{char_lines, chars_of, split, split_chars, string_of};

verus! {

// ---------------------------------------------------------------------------
// Unix path names, as `std::path::Path` reads them
// ---------------------------------------------------------------------------

/// The last component of `segs` that is neither empty nor `"."`.
pub open spec fn last_named(segs: Seq<Seq<char>>) -> Option<Seq<char>>
    decreases segs.len(),
{
    if segs.len() == 0 {
        None
    } else if segs.last().len() == 0 || segs.last() == seq!['.'] {
        last_named(segs.drop_last())
    } else {
        Some(segs.last())
    }
}

/// `Path::file_name`: the last component of the path, unless there is none or
/// it is `".."` (empty components and `"."` are skipped).
pub open spec fn file_name(p: Seq<char>) -> Option<Seq<char>> {
    match last_named(split(p, seq!['/'])) {
        Some(n) => if n == seq!['.', '.'] {
            None
        } else {
            Some(n)
        },
        None => None,
    }
}

/// The position of the last `'.'` in `name`.
pub open spec fn last_dot(name: Seq<char>) -> Option<int>
    decreases name.len(),
{
    if name.len() == 0 {
        None
    } else if name.last() == '.' {
        Some(name.len() - 1)
    } else {
        last_dot(name.drop_last())
    }
}

/// `Path::extension`: what follows the last `'.'` of the file name, unless the
/// name has no `'.'` or its only leading one starts it.
pub open spec fn extension(p: Seq<char>) -> Option<Seq<char>> {
    match file_name(p) {
        Some(n) => match last_dot(n) {
            Some(i) => if i == 0 {
                None
            } else {
                Some(n.skip(i + 1))
            },
            None => None,
        },
        None => None,
    }
}

/// `PathBuf::join` of a relative `name` onto `dir`: a `'/'` goes between
/// them unless `dir` is empty or already ends with one.
pub open spec fn join_path(dir: Seq<char>, name: Seq<char>) -> Seq<char> {
    if dir.len() == 0 || dir.last() == '/' {
        dir + name
    } else {
        dir + seq!['/'] + name
    }
}

/// `PathBuf::join` of a relative name onto a directory.
pub fn join_path_str(dir: &str, name: &str) -> (s: String)
    ensures
        s@ == join_path(dir@, name@),
{
    let mut out = chars_of(dir);
    if out.len() > 0 && out[out.len() - 1] != '/' {
        out.push('/');
    }
    crate::text::push_str(&mut out, name);
    string_of(&out)
}

/// `Path::exists`: whether the file system has an entry at `path`.
/// Nothing is stated of the answer: it depends on the disk.
#[verifier::external_body]
pub(crate) fn path_exists(path: &str) -> bool {
    std::path::Path::new(path).exists()
}

fn last_named_exec(segs: &Vec<Vec<char>>) -> (r: Option<usize>)
    ensures
        match r {
            Some(i) => i < segs.len() && last_named(char_lines(segs)) == Some(segs@[i as int]@),
            None => last_named(char_lines(segs)) is None,
        },
{
    let ghost all = char_lines(segs);
    let mut k = segs.len();
    assert(all.take(k as int) == all);
    while k > 0
        invariant
            k <= segs.len(),
            all == char_lines(segs),
            last_named(all) == last_named(all.take(k as int)),
        decreases k,
    {
        let seg = &segs[k - 1];
        let ghost pre = all.take(k as int);
        assert(pre.last() == seg@);
        assert(pre.drop_last() == all.take(k - 1));
        if seg.len() == 0 || (seg.len() == 1 && seg[0] == '.') {
            assert(seg@.len() == 0 || seg@ == seq!['.']);
            k -= 1;
        } else {
            assert(seg@ != seq!['.']) by {
                if seg@ == seq!['.'] {
                    assert(seg@.len() == 1);
                }
            }
            return Some(k - 1);
        }
    }
    None
}

/// The extension of the path `p` (see `extension`).
pub fn extension_of(p: &[char]) -> (r: Option<Vec<char>>)
    ensures
        match r {
            Some(e) => extension(p@) == Some(e@),
            None => extension(p@) is None,
        },
{
    let mut slash: Vec<char> = Vec::new();
    slash.push('/');
    let segs = split_chars(p, &slash);
    match last_named_exec(&segs) {
        None => None,
        Some(i) => {
            let name = &segs[i];
            if name.len() == 2 && name[0] == '.' && name[1] == '.' {
                assert(name@ == seq!['.', '.']);
                return None;
            }
            assert(name@ != seq!['.', '.']) by {
                if name@ == seq!['.', '.'] {
                    assert(name@.len() == 2 && name@[0] == '.' && name@[1] == '.');
                }
            }
            let mut j = name.len();
            assert(name@.take(j as int) == name@);
            while j > 0 && name[j - 1] != '.'
                invariant
                    j <= name.len(),
                    last_dot(name@) == last_dot(name@.take(j as int)),
                decreases j,
            {
                assert(name@.take(j as int).drop_last() == name@.take(j - 1));
                j -= 1;
            }
            if j == 0 {
                assert(name@.take(0) == Seq::<char>::empty());
                None
            } else {
                assert(name@.take(j as int).last() == '.');
                if j == 1 {
                    None
                } else {
                    Some(crate::text::slice_chars(name, j, name.len()))
                }
            }
        },
    }
}

} // verus!
