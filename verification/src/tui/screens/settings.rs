use vstd::prelude::*;

verus! {

/// What a settings row shows: the text being typed, marked as an edit, on
/// the row being edited; the row's value otherwise.
pub open spec fn setting_text(editing: bool, selection: usize, index: usize, input: Seq<char>, value: Seq<char>) -> Seq<char> {
    if editing && selection == index {
        "editing: "@ + input + "_"@
    } else {
        value
    }
}

/// The text shown for settings row `index`.
pub fn setting_value(editing: bool, selection: usize, index: usize, input: &str, value: String) -> (s:
    String)
    ensures
        s@ == setting_text(editing, selection, index, input@, value@),
{
    if editing && selection == index {
        let mut out = String::new();
        out.append("editing: ");
        out.append(input);
        out.append("_");
        out
    } else {
        value
    }
}

} // verus!
