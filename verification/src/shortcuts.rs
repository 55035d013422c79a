//! The keyboard shortcuts that the gear menu's "Shortcuts" row puts on screen.
//!
//! The shell consumes its own shortcuts before a pane sees a key, so a binding listed under
//! "Terminal" is one that survives that pass and reaches the terminal.

use vstd::prelude::*;

verus! {

/// A shortcut and what it does. `keys` is already formatted for the platform.
#[derive(Clone, Copy, Debug)]
pub struct Row {
    pub keys: &'static str,
    pub description: &'static str,
}

/// One titled block of rows in the shortcuts window.
#[derive(Clone, Debug)]
pub struct Section {
    pub title: &'static str,
    pub rows: Vec<Row>,
}

/// A row as its keys and description.
pub open spec fn row_view(r: Row) -> (Seq<char>, Seq<char>) {
    (r.keys@, r.description@)
}

/// A section as its title and rows.
pub open spec fn section_view(s: Section) -> (Seq<char>, Seq<(Seq<char>, Seq<char>)>) {
    (s.title@, s.rows@.map_values(|r: Row| row_view(r)))
}

/// The sections of the shortcuts window, in display order.
pub open spec fn shortcut_table() -> Seq<(Seq<char>, Seq<(Seq<char>, Seq<char>)>)> {
    seq![
        ("Vivida"@, seq![
            ("Ctrl T"@, "New tab"@),
            ("Ctrl D"@, "Split the pane left and right"@),
            ("Ctrl Shift D"@, "Split the pane top and bottom"@),
            ("Ctrl W"@, "Close the focused pane"@),
            ("Ctrl Shift N"@, "New workspace"@),
            ("Ctrl Shift W"@, "Close the workspace"@),
            ("Ctrl Shift B"@, "Expand, shrink, or hide the sidebar"@),
            ("Ctrl Shift ]"@, "Next tab"@),
            ("Ctrl Shift ["@, "Previous tab"@),
            ("Ctrl 1 – Ctrl 9"@, "Switch to workspace 1 through 9"@),
            ("Ctrl Shift F12"@, "Recover a stuck terminal"@),
        ]),
        ("Terminal"@, seq![
            ("Ctrl Shift C"@, "Copy the selection"@),
            ("Ctrl Shift V"@, "Paste"@),
            ("Shift Insert"@, "Paste the primary selection"@),
            ("Ctrl Shift F"@, "Search forward"@),
            ("Ctrl 0"@, "Reset the font size"@),
            ("Ctrl + / Ctrl −"@, "Increase or decrease the font size"@),
            ("Ctrl Shift O"@, "Open a link shown on screen"@),
            ("Shift PageUp / Shift PageDown"@, "Scroll one page"@),
            ("Shift Home / Shift End"@, "Scroll to the top or bottom"@),
        ]),
        ("While searching"@, seq![
            ("Enter"@, "Confirm the match"@),
            ("Escape"@, "Cancel the search"@),
            ("F3 / Shift F3"@, "Next or previous match"@),
            ("Ctrl U"@, "Clear the query"@),
            ("Ctrl P / Ctrl N"@, "Previous or next search in history"@),
        ]),
    ]
}

/// The sections of the shortcuts window on macOS, in display order.
pub open spec fn macos_shortcut_table() -> Seq<(Seq<char>, Seq<(Seq<char>, Seq<char>)>)> {
    seq![
        ("Vivida"@, seq![
            ("⌘T"@, "New tab"@),
            ("⌘D"@, "Split the pane left and right"@),
            ("⌘⇧D"@, "Split the pane top and bottom"@),
            ("⌘W"@, "Close the focused pane"@),
            ("⌘⇧N"@, "New workspace"@),
            ("⌘⇧W"@, "Close the workspace"@),
            ("⌘⇧B"@, "Expand, shrink, or hide the sidebar"@),
            ("⌘⇧]"@, "Next tab"@),
            ("⌘⇧["@, "Previous tab"@),
            ("⌘1 – ⌘9"@, "Switch to workspace 1 through 9"@),
            ("⌃⇧F12"@, "Recover a stuck terminal"@),
        ]),
        ("Terminal"@, seq![
            ("⌘C"@, "Copy the selection"@),
            ("⌘V"@, "Paste"@),
            ("⌘F"@, "Search forward"@),
            ("⌘B"@, "Search backward"@),
            ("⌘K"@, "Clear the scrollback"@),
            ("⌘0"@, "Reset the font size"@),
            ("⌘+ / ⌘−"@, "Increase or decrease the font size"@),
            ("⌃⌘F"@, "Toggle fullscreen"@),
            ("⌃⇧O"@, "Open a link shown on screen"@),
            ("⇧PageUp / ⇧PageDown"@, "Scroll one page"@),
            ("⇧Home / ⇧End"@, "Scroll to the top or bottom"@),
        ]),
        ("While searching"@, seq![
            ("Enter"@, "Confirm the match"@),
            ("Escape"@, "Cancel the search"@),
            ("F3 / Shift F3"@, "Next or previous match"@),
            ("Ctrl U"@, "Clear the query"@),
            ("Ctrl P / Ctrl N"@, "Previous or next search in history"@),
        ]),
    ]
}

/// Every section has a title and rows, and every row has keys and a description.
pub open spec fn fully_described(table: Seq<(Seq<char>, Seq<(Seq<char>, Seq<char>)>)>) -> bool {
    &&& table.len() > 0
    &&& forall|i: int|
        0 <= i < table.len() ==> {
            &&& (#[trigger] table[i]).0.len() > 0
            &&& table[i].1.len() > 0
            &&& forall|j: int|
                0 <= j < table[i].1.len() ==> (#[trigger] table[i].1[j]).0.len() > 0
                    && table[i].1[j].1.len() > 0
        }
}

/// Every section of the shortcuts window lists described shortcuts.
pub proof fn lemma_every_shortcut_is_described()
    ensures
        fully_described(shortcut_table()),
        fully_described(macos_shortcut_table()),
{
        reveal_strlit("Vivida");
        reveal_strlit("Ctrl T");
        reveal_strlit("New tab");
        reveal_strlit("Ctrl D");
        reveal_strlit("Split the pane left and right");
        reveal_strlit("Ctrl Shift D");
        reveal_strlit("Split the pane top and bottom");
        reveal_strlit("Ctrl W");
        reveal_strlit("Close the focused pane");
        reveal_strlit("Ctrl Shift N");
        reveal_strlit("New workspace");
        reveal_strlit("Ctrl Shift W");
        reveal_strlit("Close the workspace");
        reveal_strlit("Ctrl Shift B");
        reveal_strlit("Expand, shrink, or hide the sidebar");
        reveal_strlit("Ctrl Shift ]");
        reveal_strlit("Next tab");
        reveal_strlit("Ctrl Shift [");
        reveal_strlit("Previous tab");
        reveal_strlit("Ctrl 1 – Ctrl 9");
        reveal_strlit("Switch to workspace 1 through 9");
        reveal_strlit("Ctrl Shift F12");
        reveal_strlit("Recover a stuck terminal");
        reveal_strlit("Terminal");
        reveal_strlit("Ctrl Shift C");
        reveal_strlit("Copy the selection");
        reveal_strlit("Ctrl Shift V");
        reveal_strlit("Paste");
        reveal_strlit("Shift Insert");
        reveal_strlit("Paste the primary selection");
        reveal_strlit("Ctrl Shift F");
        reveal_strlit("Search forward");
        reveal_strlit("Ctrl 0");
        reveal_strlit("Reset the font size");
        reveal_strlit("Ctrl + / Ctrl −");
        reveal_strlit("Increase or decrease the font size");
        reveal_strlit("Ctrl Shift O");
        reveal_strlit("Open a link shown on screen");
        reveal_strlit("Shift PageUp / Shift PageDown");
        reveal_strlit("Scroll one page");
        reveal_strlit("Shift Home / Shift End");
        reveal_strlit("Scroll to the top or bottom");
        reveal_strlit("While searching");
        reveal_strlit("Enter");
        reveal_strlit("Confirm the match");
        reveal_strlit("Escape");
        reveal_strlit("Cancel the search");
        reveal_strlit("F3 / Shift F3");
        reveal_strlit("Next or previous match");
        reveal_strlit("Ctrl U");
        reveal_strlit("Clear the query");
        reveal_strlit("Ctrl P / Ctrl N");
        reveal_strlit("Previous or next search in history");
        reveal_strlit("⌘T");
        reveal_strlit("New tab");
        reveal_strlit("⌘D");
        reveal_strlit("Split the pane left and right");
        reveal_strlit("⌘⇧D");
        reveal_strlit("Split the pane top and bottom");
        reveal_strlit("⌘W");
        reveal_strlit("Close the focused pane");
        reveal_strlit("⌘⇧N");
        reveal_strlit("New workspace");
        reveal_strlit("⌘⇧W");
        reveal_strlit("Close the workspace");
        reveal_strlit("⌘⇧B");
        reveal_strlit("Expand, shrink, or hide the sidebar");
        reveal_strlit("⌘⇧]");
        reveal_strlit("Next tab");
        reveal_strlit("⌘⇧[");
        reveal_strlit("Previous tab");
        reveal_strlit("⌘1 – ⌘9");
        reveal_strlit("Switch to workspace 1 through 9");
        reveal_strlit("⌃⇧F12");
        reveal_strlit("Recover a stuck terminal");
        reveal_strlit("⌘C");
        reveal_strlit("Copy the selection");
        reveal_strlit("⌘V");
        reveal_strlit("Paste");
        reveal_strlit("⌘F");
        reveal_strlit("Search forward");
        reveal_strlit("⌘B");
        reveal_strlit("Search backward");
        reveal_strlit("⌘K");
        reveal_strlit("Clear the scrollback");
        reveal_strlit("⌘0");
        reveal_strlit("Reset the font size");
        reveal_strlit("⌘+ / ⌘−");
        reveal_strlit("Increase or decrease the font size");
        reveal_strlit("⌃⌘F");
        reveal_strlit("Toggle fullscreen");
        reveal_strlit("⌃⇧O");
        reveal_strlit("Open a link shown on screen");
        reveal_strlit("⇧PageUp / ⇧PageDown");
        reveal_strlit("Scroll one page");
        reveal_strlit("⇧Home / ⇧End");
        reveal_strlit("Scroll to the top or bottom");
}

/// A row of the shortcuts window.
pub fn row(keys: &'static str, description: &'static str) -> (r: Row)
    ensures
        r.keys@ == keys@,
        r.description@ == description@,
{
    Row { keys, description }
}

/// The sections of the shortcuts window everywhere but on macOS.
pub fn sections() -> (r: Vec<Section>)
    ensures
        r@.map_values(|s: Section| section_view(s)) == shortcut_table(),
{
    let mut vivida: Vec<Row> = Vec::new();
    vivida.push(row("Ctrl T", "New tab"));
    vivida.push(row("Ctrl D", "Split the pane left and right"));
    vivida.push(row("Ctrl Shift D", "Split the pane top and bottom"));
    vivida.push(row("Ctrl W", "Close the focused pane"));
    vivida.push(row("Ctrl Shift N", "New workspace"));
    vivida.push(row("Ctrl Shift W", "Close the workspace"));
    vivida.push(row("Ctrl Shift B", "Expand, shrink, or hide the sidebar"));
    vivida.push(row("Ctrl Shift ]", "Next tab"));
    vivida.push(row("Ctrl Shift [", "Previous tab"));
    vivida.push(row("Ctrl 1 – Ctrl 9", "Switch to workspace 1 through 9"));
    vivida.push(row("Ctrl Shift F12", "Recover a stuck terminal"));
    let mut terminal: Vec<Row> = Vec::new();
    terminal.push(row("Ctrl Shift C", "Copy the selection"));
    terminal.push(row("Ctrl Shift V", "Paste"));
    terminal.push(row("Shift Insert", "Paste the primary selection"));
    terminal.push(row("Ctrl Shift F", "Search forward"));
    terminal.push(row("Ctrl 0", "Reset the font size"));
    terminal.push(row("Ctrl + / Ctrl −", "Increase or decrease the font size"));
    terminal.push(row("Ctrl Shift O", "Open a link shown on screen"));
    terminal.push(row("Shift PageUp / Shift PageDown", "Scroll one page"));
    terminal.push(row("Shift Home / Shift End", "Scroll to the top or bottom"));
    let mut search: Vec<Row> = Vec::new();
    search.push(row("Enter", "Confirm the match"));
    search.push(row("Escape", "Cancel the search"));
    search.push(row("F3 / Shift F3", "Next or previous match"));
    search.push(row("Ctrl U", "Clear the query"));
    search.push(row("Ctrl P / Ctrl N", "Previous or next search in history"));
    let mut all: Vec<Section> = Vec::new();
    all.push(Section { title: "Vivida", rows: vivida });
    all.push(Section { title: "Terminal", rows: terminal });
    all.push(Section { title: "While searching", rows: search });
    proof {
        assert(all@[0].rows@.map_values(|r: Row| row_view(r)) =~= shortcut_table()[0].1);
        assert(all@[1].rows@.map_values(|r: Row| row_view(r)) =~= shortcut_table()[1].1);
        assert(all@[2].rows@.map_values(|r: Row| row_view(r)) =~= shortcut_table()[2].1);
        assert(all@.map_values(|s: Section| section_view(s)) =~= shortcut_table());
    }
    all
}


/// The sections of the shortcuts window on macOS.
pub fn macos_sections() -> (r: Vec<Section>)
    ensures
        r@.map_values(|s: Section| section_view(s)) == macos_shortcut_table(),
{
    let mut vivida: Vec<Row> = Vec::new();
    vivida.push(row("⌘T", "New tab"));
    vivida.push(row("⌘D", "Split the pane left and right"));
    vivida.push(row("⌘⇧D", "Split the pane top and bottom"));
    vivida.push(row("⌘W", "Close the focused pane"));
    vivida.push(row("⌘⇧N", "New workspace"));
    vivida.push(row("⌘⇧W", "Close the workspace"));
    vivida.push(row("⌘⇧B", "Expand, shrink, or hide the sidebar"));
    vivida.push(row("⌘⇧]", "Next tab"));
    vivida.push(row("⌘⇧[", "Previous tab"));
    vivida.push(row("⌘1 – ⌘9", "Switch to workspace 1 through 9"));
    vivida.push(row("⌃⇧F12", "Recover a stuck terminal"));
    let mut terminal: Vec<Row> = Vec::new();
    terminal.push(row("⌘C", "Copy the selection"));
    terminal.push(row("⌘V", "Paste"));
    terminal.push(row("⌘F", "Search forward"));
    terminal.push(row("⌘B", "Search backward"));
    terminal.push(row("⌘K", "Clear the scrollback"));
    terminal.push(row("⌘0", "Reset the font size"));
    terminal.push(row("⌘+ / ⌘−", "Increase or decrease the font size"));
    terminal.push(row("⌃⌘F", "Toggle fullscreen"));
    terminal.push(row("⌃⇧O", "Open a link shown on screen"));
    terminal.push(row("⇧PageUp / ⇧PageDown", "Scroll one page"));
    terminal.push(row("⇧Home / ⇧End", "Scroll to the top or bottom"));
    let mut search: Vec<Row> = Vec::new();
    search.push(row("Enter", "Confirm the match"));
    search.push(row("Escape", "Cancel the search"));
    search.push(row("F3 / Shift F3", "Next or previous match"));
    search.push(row("Ctrl U", "Clear the query"));
    search.push(row("Ctrl P / Ctrl N", "Previous or next search in history"));
    let mut all: Vec<Section> = Vec::new();
    all.push(Section { title: "Vivida", rows: vivida });
    all.push(Section { title: "Terminal", rows: terminal });
    all.push(Section { title: "While searching", rows: search });
    proof {
        assert(all@[0].rows@.map_values(|r: Row| row_view(r)) =~= macos_shortcut_table()[0].1);
        assert(all@[1].rows@.map_values(|r: Row| row_view(r)) =~= macos_shortcut_table()[1].1);
        assert(all@[2].rows@.map_values(|r: Row| row_view(r)) =~= macos_shortcut_table()[2].1);
        assert(all@.map_values(|s: Section| section_view(s)) =~= macos_shortcut_table());
    }
    all
}

/// The sections of the shortcuts window on the platform: the macOS table with Command and
/// Control symbols when `macos`, the table with spelled-out Ctrl and Shift otherwise.
pub fn platform_sections(macos: bool) -> (r: Vec<Section>)
    ensures
        r@.map_values(|s: Section| section_view(s)) == if macos {
            macos_shortcut_table()
        } else {
            shortcut_table()
        },
{
    if macos {
        macos_sections()
    } else {
        sections()
    }
}

} // verus!
