use vstd::prelude::*;
use vstd::string::{StrSliceExecFns, StringExecFns};

verus! {

/// The patterns of a list: those that start with `!` exclude files, the
/// others include them.
pub open spec fn is_exclusion(p: Seq<char>) -> bool {
    p.len() > 0 && p[0] == '!'
}

/// Splits input patterns into inclusions and exclusions; an exclusion loses
/// its leading `!`. Order is kept within each list.
pub fn split_patterns(inputs: &Vec<String>) -> (r: (Vec<String>, Vec<String>))
    ensures
        r.0@.map_values(|s: String| s@) == inputs@.map_values(|s: String| s@).filter(
            |p: Seq<char>| !is_exclusion(p),
        ),
        r.1@.map_values(|s: String| s@) == inputs@.map_values(|s: String| s@).filter(
            |p: Seq<char>| is_exclusion(p),
        ).map_values(|p: Seq<char>| p.drop_first()),
{
    let ghost all = inputs@.map_values(|s: String| s@);
    let ghost inc_pred = |p: Seq<char>| !is_exclusion(p);
    let ghost exc_pred = |p: Seq<char>| is_exclusion(p);
    let mut includes: Vec<String> = Vec::new();
    let mut excludes: Vec<String> = Vec::new();
    let mut i: usize = 0;
    while i < inputs.len()
        invariant
            all == inputs@.map_values(|s: String| s@),
            inc_pred == (|p: Seq<char>| !is_exclusion(p)),
            exc_pred == (|p: Seq<char>| is_exclusion(p)),
            i <= inputs@.len(),
            includes@.map_values(|s: String| s@) == all.subrange(0, i as int).filter(inc_pred),
            excludes@.map_values(|s: String| s@) == all.subrange(0, i as int).filter(exc_pred).map_values(
                |p: Seq<char>| p.drop_first(),
            ),
        decreases inputs@.len() - i,
    {
        let p = &inputs[i];
        proof {
            assert(all.subrange(0, i + 1) =~= all.subrange(0, i as int).push(p@));
            crate::collectibles::lemma_filter_push(all.subrange(0, i as int), p@, inc_pred);
            crate::collectibles::lemma_filter_push(all.subrange(0, i as int), p@, exc_pred);
        }
        let n = p.unicode_len();
        let excluded = n > 0 && p.as_str().get_char(0) == '!';
        let ghost old_inc = includes@;
        let ghost old_exc = excludes@;
        if excluded {
            let rest = String::from_str(p.as_str().substring_char(1, n));
            excludes.push(rest);
            assert(excludes@.map_values(|s: String| s@) =~= old_exc.map_values(|s: String| s@).push(
                p@.drop_first(),
            ));
            assert(all.subrange(0, i as int).filter(exc_pred).push(p@).map_values(
                |q: Seq<char>| q.drop_first(),
            ) =~= all.subrange(0, i as int).filter(exc_pred).map_values(|q: Seq<char>| q.drop_first()).push(
                p@.drop_first(),
            ));
        } else {
            includes.push(p.clone());
            assert(includes@.map_values(|s: String| s@) =~= old_inc.map_values(|s: String| s@).push(
                p@,
            ));
        }
        i = i + 1;
    }
    assert(all.subrange(0, i as int) =~= all);
    (includes, excludes)
}

/// Whether a walked entry is hashed: directories and symbolic links are not,
/// nor files that no inclusion pattern matches where there are inclusions,
/// nor files that an exclusion pattern matches. `None` stands for an empty
/// pattern list; otherwise the argument is whether the list matched.
pub fn should_hash(
    is_dir: bool,
    is_symlink: bool,
    include_match: Option<bool>,
    exclude_match: Option<bool>,
) -> (r: bool)
    ensures
        r == (!is_dir && !is_symlink && include_match != Some(false) && exclude_match != Some(
            true,
        )),
{
    if is_dir {
        return false;
    }
    match include_match {
        Some(false) => {
            return false;
        },
        _ => {},
    }
    match exclude_match {
        Some(true) => {
            return false;
        },
        _ => {},
    }
    !is_symlink
}

} // verus!
