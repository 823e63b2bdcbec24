//! Puts together the settings that were read from a configuration file and
//! from the style files that it names.

use vstd::prelude::*;

use crate::config::{Colors, Root, Style};

verus! {

/// All the items of `lists`, one list after the other.
pub open spec fn flattened<T>(lists: Seq<Vec<T>>) -> Seq<T>
    decreases lists.len(),
{
    if lists.len() == 0 {
        Seq::empty()
    } else {
        flattened(lists.drop_last()) + lists.last()@
    }
}

/// The items of the first `n` lists are the items of the first `n - 1`
/// lists followed by those of the list at `n - 1`.
proof fn lemma_flattened_step<T>(lists: Seq<Vec<T>>, n: int)
    requires
        0 < n <= lists.len(),
    ensures
        flattened(lists.take(n)) == flattened(lists.take(n - 1)) + lists[n - 1]@,
{
    assert(lists.take(n).drop_last() =~= lists.take(n - 1));
}

/// Completes the settings read from a configuration file with the styles
/// read from the files that `colors.style_files` names, in the order of
/// that list.
///
/// The styles of the files are added after those of `colors.styles`, and
/// the list of files is emptied. Without a `colors` section there is
/// nothing to complete.
pub fn load(root: Root, style_lists: Vec<Vec<Style>>) -> (loaded: Root)
    ensures
        loaded.grid == root.grid,
        loaded.columns == root.columns,
        loaded.info == root.info,
        loaded.collector == root.collector,
        root.wf() ==> loaded.wf(),
        match (root.colors, loaded.colors) {
            (None, None) => true,
            (Some(before), Some(after)) => {
                &&& after.when == before.when
                &&& after.use_lscolors == before.use_lscolors
                &&& after.column_label == before.column_label
                &&& after.name_ellipsis == before.name_ellipsis
                &&& after.more_entries == before.more_entries
                &&& after.diff_added == before.diff_added
                &&& after.diff_deleted == before.diff_deleted
                &&& after.disk_usage == before.disk_usage
                &&& after.style_files@.len() == 0
                &&& after.styles@ == before.styles@ + flattened(style_lists@)
            },
            _ => false,
        },
{
    let Root { colors, grid, columns, info, collector } = root;
    let colors = match colors {
        None => None,
        Some(colors) => {
            let Colors {
                when,
                use_lscolors,
                column_label,
                name_ellipsis,
                more_entries,
                diff_added,
                diff_deleted,
                disk_usage,
                styles,
                style_files: _,
            } = colors;
            let mut styles = styles;
            let ghost before = styles@;
            let mut lists = style_lists;
            let ghost all = lists@;
            let total = lists.len();
            assert(all.len() == total);
            let mut rest: Vec<Vec<Style>> = Vec::new();
            // Take the lists out last first, to put their styles in order.
            while lists.len() > 0
                invariant
                    lists@.len() + rest@.len() == all.len(),
                    all.len() <= usize::MAX,
                    lists@ == all.take(lists@.len() as int),
                    forall|k: int|
                        0 <= k < rest@.len() ==> rest@[k] == all[all.len() - 1 - k],
                decreases lists@.len(),
            {
                let list = lists.pop().unwrap();
                rest.push(list);
                assert(lists@ =~= all.take(lists@.len() as int));
            }
            let mut done: usize = 0;
            assert(all.take(0) =~= Seq::<Vec<Style>>::empty());
            while rest.len() > 0
                invariant
                    done + rest@.len() == all.len(),
                    all.len() <= usize::MAX,
                    forall|k: int|
                        0 <= k < rest@.len() ==> rest@[k] == all[all.len() - 1 - k],
                    styles@ == before + flattened(all.take(done as int)),
                decreases rest@.len(),
            {
                let mut list = rest.pop().unwrap();
                proof {
                    lemma_flattened_step(all, done + 1);
                }
                styles.append(&mut list);
                done += 1;
            }
            assert(all.take(done as int) =~= all);
            Some(
                Colors {
                    when,
                    use_lscolors,
                    column_label,
                    name_ellipsis,
                    more_entries,
                    diff_added,
                    diff_deleted,
                    disk_usage,
                    styles,
                    style_files: Vec::new(),
                },
            )
        },
    };
    Root { colors, grid, columns, info, collector }
}

} // verus!
