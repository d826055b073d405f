use vstd::prelude::*;

use crate::extract::db::SaveRow;
use crate::extract::model::{path_display_text, path_to_text};
use crate::tui::app::SaveListRow;

verus! {

/// The first listed save named `dir_name` that has been extracted.
pub open spec fn first_extracted_row(saves: Seq<SaveListRow>, dir_name: Seq<char>) -> Option<
    SaveListRow,
>
    decreases saves.len(),
{
    if saves.len() == 0 {
        None
    } else if saves[0].dir_name@ == dir_name && saves[0].extracted_at is Some {
        Some(saves[0])
    } else {
        first_extracted_row(saves.drop_first(), dir_name)
    }
}

/// The extracted save a list row stands for, rebuilt from the row: no
/// database id, game version or level, which the list does not show.
pub open spec fn row_as_extracted(row: SaveListRow, s: SaveRow) -> bool {
    &&& s.id == 0
    &&& s.dir_name == row.dir_name
    &&& s.path@ == path_display_text(row.path)
    &&& s.character_name == row.character_name
    &&& s.save_date == row.modified
    &&& s.game_version@ == Seq::<char>::empty()
    &&& s.character_level == 0
    &&& s.extracted_at == row.extracted_at.unwrap()
}

fn clone_string(s: &String) -> (r: String)
    ensures
        r == *s,
{
    s.clone()
}

fn copy_save_row(a: &SaveRow) -> (r: SaveRow)
    ensures
        r == *a,
{
    SaveRow {
        id: a.id,
        dir_name: clone_string(&a.dir_name),
        path: clone_string(&a.path),
        character_name: clone_string(&a.character_name),
        save_date: clone_string(&a.save_date),
        game_version: clone_string(&a.game_version),
        character_level: a.character_level,
        extracted_at: clone_string(&a.extracted_at),
    }
}

/// The extracted save named `dir_name`: the active save when it has that
/// name, else one rebuilt from the first extracted row of the list with it.
pub fn find_extracted(active_save: &Option<SaveRow>, saves: &[SaveListRow], dir_name: &str) -> (r:
    Option<SaveRow>)
    ensures
        match active_save {
            Some(a) if a.dir_name@ == dir_name@ => r == Some(*a),
            _ => match first_extracted_row(saves@, dir_name@) {
                Some(row) => r is Some && row_as_extracted(row, r.unwrap()),
                None => r is None,
            },
        },
{
    let name = dir_name.to_owned();
    match active_save {
        Some(a) => {
            if a.dir_name == name {
                return Some(copy_save_row(a));
            }
        },
        None => {},
    }
    let mut i: usize = 0;
    proof {
        assert(saves@.skip(0) =~= saves@);
    }
    while i < saves.len()
        invariant
            0 <= i <= saves@.len(),
            name@ == dir_name@,
            !(active_save matches Some(a) && a.dir_name@ == dir_name@),
            first_extracted_row(saves@, dir_name@) == first_extracted_row(saves@.skip(i as int), dir_name@),
        decreases saves@.len() - i,
    {
        proof {
            assert(saves@.skip(i as int).drop_first() =~= saves@.skip(i + 1));
            assert(saves@.skip(i as int)[0] == saves@[i as int]);
        }
        let row = &saves[i];
        if row.dir_name == name {
            match &row.extracted_at {
                Some(at) => {
                    return Some(
                        SaveRow {
                            id: 0,
                            dir_name: clone_string(&row.dir_name),
                            path: path_to_text(&row.path),
                            character_name: clone_string(&row.character_name),
                            save_date: clone_string(&row.modified),
                            game_version: String::new(),
                            character_level: 0,
                            extracted_at: clone_string(at),
                        },
                    );
                },
                None => {},
            }
        }
        i = i + 1;
    }
    None
}

} // verus!
