//! The application's embedded icons: their asset paths, and the listing of
//! the icons under a path prefix.
use vstd::prelude::*;

verus! {

/// Icon path constants for use with `svg().path()`.
pub const ICON_FILE_DIFF: &'static str = "icons/file-diff.svg";
/// The history icon.
pub const ICON_CLOCK: &'static str = "icons/clock-3.svg";
/// The terminal icon.
pub const ICON_TERMINAL: &'static str = "icons/terminal.svg";
/// The split-pane icon.
pub const ICON_COLUMNS: &'static str = "icons/columns-2.svg";
/// The search icon.
pub const ICON_SEARCH: &'static str = "icons/search.svg";
/// The branch icon.
pub const ICON_GIT_BRANCH: &'static str = "icons/git-branch.svg";

/// Every icon path, in listing order.
pub open spec fn all_icon_paths() -> Seq<Seq<char>> {
    seq![
        "icons/file-diff.svg"@,
        "icons/clock-3.svg"@,
        "icons/terminal.svg"@,
        "icons/columns-2.svg"@,
        "icons/search.svg"@,
        "icons/git-branch.svg"@,
    ]
}

/// The icon paths that start with `prefix`, in listing order.
pub open spec fn icons_under(paths: Seq<Seq<char>>, prefix: Seq<char>) -> Seq<Seq<char>>
    decreases paths.len(),
{
    if paths.len() == 0 {
        Seq::empty()
    } else if prefix.is_prefix_of(paths.last()) {
        icons_under(paths.drop_last(), prefix).push(paths.last())
    } else {
        icons_under(paths.drop_last(), prefix)
    }
}

/// All known icon paths, in listing order.
pub fn all_icons() -> (r: Vec<&'static str>)
    ensures
        r@.map_values(|p: &str| p@) == all_icon_paths(),
{
    let r = vec![ICON_FILE_DIFF, ICON_CLOCK, ICON_TERMINAL, ICON_COLUMNS, ICON_SEARCH, ICON_GIT_BRANCH];
    proof {
        reveal_strlit("icons/file-diff.svg");
        reveal_strlit("icons/clock-3.svg");
        reveal_strlit("icons/terminal.svg");
        reveal_strlit("icons/columns-2.svg");
        reveal_strlit("icons/search.svg");
        reveal_strlit("icons/git-branch.svg");
    }
    assert(r@.map_values(|p: &str| p@) =~= all_icon_paths());
    r
}

/// Whether `prefix` starts `s`.
fn starts_with(s: &str, prefix: &str) -> (r: bool)
    ensures
        r == prefix@.is_prefix_of(s@),
{
    let sc = crate::text::chars_of(s);
    let pc = crate::text::chars_of(prefix);
    if pc.len() > sc.len() {
        return false;
    }
    let mut i: usize = 0;
    while i < pc.len()
        invariant
            pc@ == prefix@,
            sc@ == s@,
            pc@.len() <= sc@.len(),
            i <= pc@.len(),
            forall|k: int| 0 <= k < i ==> pc@[k] == sc@[k],
        decreases pc@.len() - i,
    {
        if pc[i] != sc[i] {
            assert(sc@.subrange(0, pc@.len() as int)[i as int] != pc@[i as int]);
            return false;
        }
        i = i + 1;
    }
    assert(sc@.subrange(0, pc@.len() as int) =~= pc@);
    true
}

/// Asset source for the application's embedded icons.
pub struct AdeAssets;

impl AdeAssets {
    /// Which embedded icon `path` names: its place among the icon paths, or
    /// `None` for a path that is no icon (whose load gives nothing).
    pub fn icon_index(&self, path: &str) -> (r: Option<usize>)
        ensures
            match r {
                Some(i) => i < all_icon_paths().len() && all_icon_paths()[i as int] == path@,
                None => !all_icon_paths().contains(path@),
            },
    {
        let icons = all_icons();
        let mut i: usize = 0;
        while i < icons.len()
            invariant
                i <= icons@.len(),
                icons@.map_values(|p: &str| p@) == all_icon_paths(),
                forall|k: int| 0 <= k < i ==> all_icon_paths()[k] != path@,
            decreases icons@.len() - i,
        {
            let p = icons[i];
            assert(icons@.map_values(|p: &str| p@)[i as int] == icons@[i as int]@);
            if starts_with(p, path) && starts_with(path, p) {
                assert(p@ =~= path@) by {
                    assert(p@.subrange(0, path@.len() as int) == path@);
                    assert(path@.subrange(0, p@.len() as int) == p@);
                }
                return Some(i);
            }
            i = i + 1;
        }
        proof {
            if all_icon_paths().contains(path@) {
                let k = choose|k: int| 0 <= k < all_icon_paths().len() && all_icon_paths()[k] == path@;
                assert(all_icon_paths()[k] == path@);
            }
        }
        None
    }

    /// The icon paths under `path`, in listing order.
    pub fn list(&self, path: &str) -> (r: Vec<&'static str>)
        ensures
            r@.map_values(|p: &str| p@) == icons_under(all_icon_paths(), path@),
    {
        let icons = all_icons();
        let mut out: Vec<&'static str> = Vec::new();
        let mut i: usize = 0;
        while i < icons.len()
            invariant
                i <= icons@.len(),
                icons@.map_values(|p: &str| p@) == all_icon_paths(),
                out@.map_values(|p: &str| p@) == icons_under(all_icon_paths().take(i as int), path@),
            decreases icons@.len() - i,
        {
            let p = icons[i];
            let ghost before = out@;
            assert(all_icon_paths().take(i + 1).drop_last() =~= all_icon_paths().take(i as int));
            assert(icons@.map_values(|p: &str| p@)[i as int] == icons@[i as int]@);
            if starts_with(p, path) {
                out.push(p);
                assert(out@.map_values(|p: &str| p@) =~= before.map_values(|p: &str| p@).push(p@));
            }
            i = i + 1;
        }
        assert(all_icon_paths().take(i as int) =~= all_icon_paths());
        out
    }
}

} // verus!
