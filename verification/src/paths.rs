//! Relative-path helpers: joining a workspace root with a relative path, and
//! mapping paths under a renamed prefix, as the rename command needs.

use vstd::prelude::*;

verus! {


/// `base` and `rel` joined with a single `/`.
pub open spec fn joined_path(base: Seq<char>, rel: Seq<char>) -> Seq<char> {
    if base.len() == 0 {
        rel
    } else if base.last() == '/' {
        base + rel
    } else {
        base + seq!['/'] + rel
    }
}

/// Joins a workspace root and a relative path with a single `/`.
pub fn to_absolute_path(base_path: &String, relative_path: &String) -> (r: String)
    ensures
        r@ == joined_path(base_path@, relative_path@),
{
    let n = base_path.as_str().unicode_len();
    if n == 0 {
        return relative_path.clone();
    }
    let mut out = base_path.clone();
    if base_path.as_str().get_char(n - 1) != '/' {
        out.append("/");
        proof {
            reveal_strlit("/");
            assert("/"@ =~= seq!['/']);
        }
    }
    out.append(relative_path.as_str());
    out
}

/// Whether `p` lies strictly under the directory `prefix`.
pub open spec fn is_under_prefix(p: Seq<char>, prefix: Seq<char>) -> bool {
    p.len() > prefix.len() && p.take(prefix.len() as int) == prefix && p[prefix.len() as int]
        == '/'
}

/// `p` with a leading `old_prefix` (as a whole path or as a directory)
/// replaced by `new_prefix`; any other path is unchanged.
pub open spec fn spec_replace_prefix(
    p: Seq<char>,
    old_prefix: Seq<char>,
    new_prefix: Seq<char>,
) -> Seq<char> {
    if p == old_prefix {
        new_prefix
    } else if is_under_prefix(p, old_prefix) {
        new_prefix + p.skip(old_prefix.len() as int)
    } else {
        p
    }
}

fn starts_with_dir(p: &String, prefix: &String) -> (r: bool)
    ensures
        r == is_under_prefix(p@, prefix@),
{
    let pn = p.as_str().unicode_len();
    let fn_ = prefix.as_str().unicode_len();
    if pn <= fn_ {
        return false;
    }
    if p.as_str().get_char(fn_) != '/' {
        return false;
    }
    let mut i: usize = 0;
    while i < fn_
        invariant
            pn == p@.len(),
            fn_ == prefix@.len(),
            pn > fn_,
            i <= fn_,
            forall|j: int| 0 <= j < i ==> p@[j] == prefix@[j],
        decreases fn_ - i,
    {
        if p.as_str().get_char(i) != prefix.as_str().get_char(i) {
            proof {
                assert(p@.take(prefix@.len() as int)[i as int] == p@[i as int]);
            }
            return false;
        }
        i = i + 1;
    }
    proof {
        assert(p@.take(prefix@.len() as int) =~= prefix@);
    }
    true
}

/// Maps one path under a renamed prefix: the prefix itself becomes the new
/// prefix, paths below it move along, anything else is unchanged.
pub fn replace_path_prefix(p: &String, old_prefix: &String, new_prefix: &String) -> (r: String)
    ensures
        r@ == spec_replace_prefix(p@, old_prefix@, new_prefix@),
{
    if *p == *old_prefix {
        return new_prefix.clone();
    }
    if starts_with_dir(p, old_prefix) {
        let pn = p.as_str().unicode_len();
        let fn_ = old_prefix.as_str().unicode_len();
        let rest = p.as_str().substring_char(fn_, pn);
        let mut out = new_prefix.clone();
        out.append(rest);
        return out;
    }
    p.clone()
}

/// What an internal rename resolves to: the old and new relative paths of
/// the renamed item.
#[derive(Debug, PartialEq, Eq)]
pub struct RenameResult {
    pub new_path: String,
    pub old_path: String,
    pub is_dir: bool,
}

/// Plans an internal rename: the resolved old and new paths, and every
/// affected path mapped under the new prefix.
pub fn plan_rename(
    old_relative_path: &String,
    new_relative_path: &String,
    affected: &Vec<String>,
    is_dir: bool,
) -> (r: (RenameResult, Vec<String>))
    ensures
        r.0.old_path@ == old_relative_path@,
        r.0.new_path@ == new_relative_path@,
        r.0.is_dir == is_dir,
        r.1@.map_values(|p: String| p@) == affected@.map_values(|p: String| p@).map_values(
            |pv: Seq<char>| spec_replace_prefix(pv, old_relative_path@, new_relative_path@),
        ),
{
    let ghost avs = affected@.map_values(|p: String| p@);
    let ghost mapped = avs.map_values(
        |pv: Seq<char>| spec_replace_prefix(pv, old_relative_path@, new_relative_path@),
    );
    let mut out: Vec<String> = Vec::new();
    let n = affected.len();
    let mut i: usize = 0;
    while i < n
        invariant
            avs == affected@.map_values(|p: String| p@),
            mapped == avs.map_values(
                |pv: Seq<char>| spec_replace_prefix(pv, old_relative_path@, new_relative_path@),
            ),
            n == affected.len(),
            i <= n,
            out@.map_values(|p: String| p@) =~= mapped.take(i as int),
        decreases n - i,
    {
        let mapped_one = replace_path_prefix(&affected[i], old_relative_path, new_relative_path);
        out.push(mapped_one);
        proof {
            assert(out@.map_values(|p: String| p@) =~= mapped.take(i as int).push(
                mapped[i as int],
            ));
            assert(mapped.take(i as int).push(mapped[i as int]) =~= mapped.take(i as int + 1));
        }
        i = i + 1;
    }
    proof {
        assert(mapped.take(n as int) =~= mapped);
    }
    let result = RenameResult {
        new_path: new_relative_path.clone(),
        old_path: old_relative_path.clone(),
        is_dir,
    };
    (result, out)
}

} // verus!
