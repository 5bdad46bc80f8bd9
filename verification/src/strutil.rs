//! String helpers: character-wise equality and forcing a profile name's
//! file extension to `.toml`.

use vstd::prelude::*;
use vstd::string::StrSliceExecFns;
use vstd::string::StringExecFns;

verus! {

/// Whether two string slices hold the same characters.
pub fn str_eq(a: &str, b: &str) -> (r: bool)
    ensures
        r == (a@ == b@),
{
    let a_len: usize = a.unicode_len();
    let b_len: usize = b.unicode_len();
    if a_len != b_len {
        proof {
            assert(a@.len() != b@.len());
        }
        return false;
    }
    let mut i: usize = 0;
    while i < a_len
        invariant
            0 <= i <= a_len,
            a_len == a@.len(),
            b_len == b@.len(),
            a_len == b_len,
            forall|j: int| 0 <= j < i ==> a@[j] == b@[j],
        decreases a_len - i,
    {
        if a.get_char(i) != b.get_char(i) {
            return false;
        }
        i += 1;
    }
    proof {
        assert(a@ =~= b@);
    }
    true
}

/// Position of the dot that begins `name`'s extension: the last `'.'` of
/// the final path component, unless that dot is the component's first
/// character (a leading-dot name has no extension).  `None` when the name
/// ends in `'/'` or holds no such dot.
pub open spec fn ext_dot(name: Seq<char>) -> Option<int>
    decreases name.len(),
{
    if name.len() == 0 {
        None
    } else if name.last() == '/' {
        None
    } else if name.last() == '.' {
        if name.len() >= 2 && name[name.len() - 2] != '/' {
            Some(name.len() - 1)
        } else {
            None
        }
    } else {
        ext_dot(name.drop_last())
    }
}

/// A profile name's configuration file name: the name with its extension
/// replaced by `toml`, or with `.toml` appended when it has none.
pub open spec fn with_toml_ext(name: Seq<char>) -> Seq<char> {
    match ext_dot(name) {
        Some(p) => name.subrange(0, p) + ".toml"@,
        None => name + ".toml"@,
    }
}

/// Force a profile name's extension to `.toml`.
pub fn toml_file_name(name: &str) -> (r: String)
    ensures
        r@ == with_toml_ext(name@),
{
    let n: usize = name.unicode_len();
    let mut i: usize = n;
    proof {
        assert(name@.subrange(0, n as int) =~= name@);
    }
    while i > 0 && name.get_char(i - 1) != '.' && name.get_char(i - 1) != '/'
        invariant
            0 <= i <= n,
            n == name@.len(),
            ext_dot(name@) == ext_dot(name@.subrange(0, i as int)),
        decreases i,
    {
        proof {
            let p = name@.subrange(0, i as int);
            assert(p.last() == name@[i - 1]);
            assert(p.drop_last() =~= name@.subrange(0, i - 1));
        }
        i -= 1;
    }
    if i >= 1 && name.get_char(i - 1) == '.' && (i >= 2 && name.get_char(i - 2) != '/') {
        proof {
            let p = name@.subrange(0, i as int);
            assert(p.last() == name@[i - 1]);
            assert(p[p.len() - 2] == name@[i - 2]);
            assert(ext_dot(name@) == Some(i - 1));
        }
        let stem = name.substring_char(0, i - 1);
        let r = stem.to_owned().concat(".toml");
        proof {
            assert(r@ == with_toml_ext(name@));
        }
        r
    } else {
        proof {
            let p = name@.subrange(0, i as int);
            if i == 0 {
                assert(p =~= Seq::<char>::empty());
                assert(ext_dot(name@) is None);
            } else {
                assert(p.last() == name@[i - 1]);
                if name@[i - 1] == '.' {
                    if p.len() >= 2 {
                        assert(p[p.len() - 2] == name@[i - 2]);
                    }
                    assert(ext_dot(name@) is None);
                } else {
                    assert(ext_dot(name@) is None);
                }
            }
        }
        let r = name.to_owned().concat(".toml");
        proof {
            assert(r@ == with_toml_ext(name@));
        }
        r
    }
}

} // verus!
