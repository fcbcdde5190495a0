use vstd::prelude::*;
use vstd::string::StrSliceExecFns;
use vstd::string::StringExecFns;

verus! {

/// A path is absolute when it starts at the root separator.
pub open spec fn is_absolute(p: Seq<char>) -> bool {
    p.len() > 0 && p[0] == '/'
}

/// The directory that `p` names when read from `dir`: an absolute path
/// stands as it is, a relative one is appended to `dir` with one separator
/// between them (none is added where `dir` is empty or already ends in one).
pub open spec fn resolve_dir(dir: Seq<char>, p: Seq<char>) -> Seq<char> {
    if is_absolute(p) {
        p
    } else if dir.len() == 0 || dir.last() == '/' {
        dir + p
    } else {
        dir + seq!['/'] + p
    }
}

/// Resolves `p` against the directory `dir`.
pub fn join_dir(dir: &String, p: &String) -> (r: String)
    ensures
        r@ == resolve_dir(dir@, p@),
{
    let n = p.as_str().unicode_len();
    if n > 0 && p.as_str().get_char(0) == '/' {
        return p.clone();
    }
    let m = dir.as_str().unicode_len();
    if m == 0 || dir.as_str().get_char(m - 1) == '/' {
        dir.clone().concat(p.as_str())
    } else {
        proof {
            reveal_strlit("/");
        }
        let with_sep = dir.clone().concat("/");
        with_sep.concat(p.as_str())
    }
}

/// A relative path is read from the directory it is given: the result starts
/// with that directory and ends with the path.
pub proof fn lemma_relative_extends_dir(dir: Seq<char>, p: Seq<char>)
    requires
        !is_absolute(p),
    ensures
        resolve_dir(dir, p).subrange(0, dir.len() as int) == dir,
        resolve_dir(dir, p).subrange(resolve_dir(dir, p).len() - p.len(), resolve_dir(dir, p).len() as int)
            == p,
{
    let r = resolve_dir(dir, p);
    assert(r.subrange(0, dir.len() as int) =~= dir);
    assert(r.subrange(r.len() - p.len(), r.len() as int) =~= p);
}

} // verus!
