//! The inline editor that renames a workspace or a tab.
//!
//! Text is edited character by character: the cursor is a character position, so no edit can
//! split a character.

use vstd::prelude::*;

use crate::model::{TabId, WorkspaceId};

verus! {

/// Longest name, in characters, that the editor accepts.
pub const MAX_NAME_CHARS: usize = 128;

/// What a name editor renames.
#[derive(Clone, Copy, Debug, PartialEq, Eq, Structural)]
pub enum NameTarget {
    Workspace(WorkspaceId),
    Tab { workspace_id: WorkspaceId, tab_id: TabId },
}

/// Whether `c` is a control character (Unicode general category Cc).
pub open spec fn is_control(c: char) -> bool {
    (c as u32) <= 0x1f || (0x7f <= (c as u32) && (c as u32) <= 0x9f)
}

/// Whether `c` is a control character (Unicode general category Cc): U+0000 to U+001F and
/// U+007F to U+009F.
pub fn char_is_control(c: char) -> (r: bool)
    ensures
        r == is_control(c),
{
    let code = c as u32;
    code <= 0x1f || (0x7f <= code && code <= 0x9f)
}

/// The characters of `s` that are not control characters, in order.
pub open spec fn printable(s: Seq<char>) -> Seq<char> {
    s.filter(|c: char| !is_control(c))
}

/// The characters of a string, in order.
pub(crate) fn chars_of(s: &str) -> (r: Vec<char>)
    ensures
        r@ == s@,
{
    broadcast use vstd::string::axiom_spec_iter;

    let mut out: Vec<char> = Vec::new();
    for c in it: s.chars()
        invariant
            it.seq() == s@,
            out@ == it.seq().take(it.index() as int),
    {
        out.push(c);
        proof {
            assert(it.seq().take(it.index() as int + 1) =~= out@);
        }
    }
    proof {
        assert(out@ =~= s@);
    }
    out
}

/// Append a character to a string (`String::push`).
#[verifier::external_body]
pub(crate) fn push_char(s: &mut String, c: char)
    ensures
        final(s)@ == old(s)@.push(c),
{
    s.push(c)
}

/// A string of the given characters.
pub fn string_of(chars: &Vec<char>) -> (r: String)
    ensures
        r@ == chars@,
{
    let mut out = String::new();
    let mut i: usize = 0;
    while i < chars.len()
        invariant
            i <= chars@.len(),
            out@ == chars@.subrange(0, i as int),
        decreases chars@.len() - i,
    {
        push_char(&mut out, chars[i]);
        proof {
            assert(chars@.subrange(0, i + 1) =~= chars@.subrange(0, i as int).push(chars@[i as int]));
        }
        i = i + 1;
    }
    proof {
        assert(chars@.subrange(0, i as int) =~= chars@);
    }
    out
}

/// A name being edited: its text, a cursor between characters, the input method's pending
/// composition, and whether the whole text is selected (as it is when editing starts).
#[derive(Debug)]
pub struct NameEditor {
    target: NameTarget,
    text: Vec<char>,
    cursor: usize,
    preedit: Vec<char>,
    select_all: bool,
    error: Option<String>,
}

impl NameEditor {
    #[verifier::type_invariant]
    spec fn cursor_in_text(self) -> bool {
        self.cursor <= self.text@.len()
    }

    /// The text being edited.
    pub closed spec fn chars(self) -> Seq<char> {
        self.text@
    }

    /// The cursor's character position.
    pub closed spec fn position(self) -> nat {
        self.cursor as nat
    }

    /// The pending input-method composition.
    pub closed spec fn composition(self) -> Seq<char> {
        self.preedit@
    }

    /// Whether the whole text is selected.
    pub closed spec fn all_selected(self) -> bool {
        self.select_all
    }

    /// Whether an error message is shown.
    pub closed spec fn has_error(self) -> bool {
        self.error is Some
    }

    /// The error message shown, if any.
    pub closed spec fn shown_error(self) -> Option<Seq<char>> {
        match self.error {
            Some(message) => Some(message@),
            None => None,
        }
    }

    /// What the editor renames.
    pub closed spec fn renames(self) -> NameTarget {
        self.target
    }

    /// An editor for `text` with all of it selected and the cursor at its end.
    pub fn new(target: NameTarget, text: &str) -> (r: NameEditor)
        ensures
            r.renames() == target,
            r.chars() == text@,
            r.position() == text@.len(),
            r.composition().len() == 0,
            r.all_selected(),
            !r.has_error(),
    {
        let text = chars_of(text);
        let cursor = text.len();
        NameEditor { target, text, cursor, preedit: Vec::new(), select_all: true, error: None }
    }

    /// What the field shows: the selected text in brackets followed by the caret, or the text
    /// with the composition at the cursor and the caret after it.
    pub fn display_value(&self) -> (r: String)
        ensures
            r@ == if self.all_selected() {
                seq!['['] + self.chars() + seq![']', '|']
            } else {
                self.chars().subrange(0, self.position() as int) + self.composition() + seq!['|']
                    + self.chars().subrange(self.position() as int, self.chars().len() as int)
            },
    {
        proof {
            use_type_invariant(self);
        }
        let mut shown: Vec<char> = Vec::new();
        if self.select_all {
            shown.push('[');
            append_chars(&mut shown, &self.text, 0, self.text.len());
            shown.push(']');
            shown.push('|');
        } else {
            append_chars(&mut shown, &self.text, 0, self.cursor);
            append_chars(&mut shown, &self.preedit, 0, self.preedit.len());
            shown.push('|');
            append_chars(&mut shown, &self.text, self.cursor, self.text.len());
        }
        proof {
            assert(self.text@.subrange(0, self.text@.len() as int) =~= self.text@);
            assert(self.preedit@.subrange(0, self.preedit@.len() as int) =~= self.preedit@);
            if self.select_all {
                assert(shown@ =~= seq!['['] + self.text@ + seq![']', '|']);
            } else {
                assert(shown@ =~= self.text@.subrange(0, self.cursor as int) + self.preedit@
                    + seq!['|'] + self.text@.subrange(self.cursor as int, self.text@.len() as int));
            }
        }
        string_of(&shown)
    }

    /// The text being edited.
    pub fn text(&self) -> (r: String)
        ensures
            r@ == self.chars(),
    {
        string_of(&self.text)
    }

    /// Type `value` at the cursor, replacing the whole text when it is selected. Control
    /// characters are dropped, and typing stops at [`MAX_NAME_CHARS`] characters.
    pub fn insert(&mut self, value: &str)
        ensures
            ({
                let base = if old(self).all_selected() {
                    Seq::<char>::empty()
                } else {
                    old(self).chars()
                };
                let at = if old(self).all_selected() {
                    0
                } else {
                    old(self).position() as int
                };
                let room = if base.len() < MAX_NAME_CHARS {
                    MAX_NAME_CHARS - base.len()
                } else {
                    0
                };
                let typed = printable(value@);
                let kept = if typed.len() <= room {
                    typed
                } else {
                    typed.subrange(0, room as int)
                };
                &&& final(self).chars() == base.subrange(0, at) + kept + base.subrange(at, base.len() as int)
                &&& final(self).position() == at + kept.len()
            }),
            !final(self).all_selected(),
            !final(self).has_error(),
            final(self).composition() == old(self).composition(),
            final(self).renames() == old(self).renames(),
            final(self).position() <= final(self).chars().len(),
    {
        proof {
            use_type_invariant(&*self);
        }
        if self.select_all {
            self.cursor = 0;
            self.text = Vec::new();
            self.select_all = false;
        }
        let room = MAX_NAME_CHARS.saturating_sub(self.text.len());
        let chars = chars_of(value);
        let mut kept: Vec<char> = Vec::new();
        let ghost typed = printable(value@);
        let mut i: usize = 0;
        while i < chars.len() && kept.len() < room
            invariant
                i <= chars@.len(),
                chars@ == value@,
                kept@.len() <= room,
                kept@ == printable(chars@.subrange(0, i as int)),
                kept@.len() < room || i == chars@.len() || kept@.len() == room,
            decreases chars@.len() - i,
        {
            let c = chars[i];
            proof {
                reveal_with_fuel(Seq::filter, 1);
                assert(chars@.subrange(0, i + 1).drop_last() =~= chars@.subrange(0, i as int));
            }
            if !char_is_control(c) {
                kept.push(c);
            }
            i = i + 1;
        }
        proof {
            lemma_printable_prefix(chars@, i as int, room as int);
        }
        let ghost base = self.text@;
        let at = self.cursor;
        let count = kept.len();
        let mut spliced: Vec<char> = Vec::new();
        append_chars(&mut spliced, &self.text, 0, at);
        append_chars(&mut spliced, &kept, 0, count);
        append_chars(&mut spliced, &self.text, at, self.text.len());
        proof {
            assert(kept@.subrange(0, count as int) =~= kept@);
        }
        self.text = spliced;
        self.cursor = at + count;
        self.error = None;
    }

    /// Delete the character before the cursor, or the whole text when it is selected.
    pub fn backspace(&mut self)
        ensures
            if old(self).all_selected() {
                &&& final(self).chars().len() == 0
                &&& final(self).position() == 0
            } else if old(self).position() > 0 {
                &&& final(self).chars() == old(self).chars().remove(old(self).position() - 1)
                &&& final(self).position() == old(self).position() - 1
            } else {
                &&& final(self).chars() == old(self).chars()
                &&& final(self).position() == old(self).position()
            },
            !final(self).all_selected(),
            !final(self).has_error(),
            final(self).composition() == old(self).composition(),
            final(self).renames() == old(self).renames(),
            final(self).position() <= final(self).chars().len(),
    {
        proof {
            use_type_invariant(&*self);
        }
        if self.select_all {
            self.cursor = 0;
            self.text = Vec::new();
            self.select_all = false;
        } else if self.cursor > 0 {
            let at = self.cursor - 1;
            self.cursor = at;
            self.text = without(&self.text, at);
        }
        self.error = None;
    }

    /// Delete the character after the cursor, or the whole text when it is selected.
    pub fn delete(&mut self)
        ensures
            if old(self).all_selected() {
                &&& final(self).chars().len() == 0
                &&& final(self).position() == 0
            } else if old(self).position() < old(self).chars().len() {
                &&& final(self).chars() == old(self).chars().remove(old(self).position() as int)
                &&& final(self).position() == old(self).position()
            } else {
                &&& final(self).chars() == old(self).chars()
                &&& final(self).position() == old(self).position()
            },
            !final(self).all_selected(),
            !final(self).has_error(),
            final(self).composition() == old(self).composition(),
            final(self).renames() == old(self).renames(),
            final(self).position() <= final(self).chars().len(),
    {
        proof {
            use_type_invariant(&*self);
        }
        if self.select_all {
            self.cursor = 0;
            self.text = Vec::new();
            self.select_all = false;
        } else if self.cursor < self.text.len() {
            let at = self.cursor;
            self.text = without(&self.text, at);
        }
        self.error = None;
    }

    /// Move the cursor one character left; with the whole text selected, drop the selection
    /// and go to the start.
    pub fn move_left(&mut self)
        ensures
            final(self).chars() == old(self).chars(),
            final(self).position() == if old(self).all_selected() {
                0
            } else if old(self).position() > 0 {
                (old(self).position() - 1) as nat
            } else {
                0
            },
            !final(self).all_selected(),
            final(self).has_error() == old(self).has_error(),
            final(self).composition() == old(self).composition(),
            final(self).renames() == old(self).renames(),
            final(self).position() <= final(self).chars().len(),
    {
        proof {
            use_type_invariant(&*self);
        }
        if self.select_all {
            self.select_all = false;
            self.cursor = 0;
        } else if self.cursor > 0 {
            self.cursor = self.cursor - 1;
        }
    }

    /// Move the cursor one character right; with the whole text selected, drop the selection
    /// and go to the end.
    pub fn move_right(&mut self)
        ensures
            final(self).chars() == old(self).chars(),
            final(self).position() == if old(self).all_selected() {
                old(self).chars().len()
            } else if old(self).position() < old(self).chars().len() {
                old(self).position() + 1
            } else {
                old(self).position()
            },
            !final(self).all_selected(),
            final(self).has_error() == old(self).has_error(),
            final(self).composition() == old(self).composition(),
            final(self).renames() == old(self).renames(),
            final(self).position() <= final(self).chars().len(),
    {
        proof {
            use_type_invariant(&*self);
        }
        if self.select_all {
            self.select_all = false;
            self.cursor = self.text.len();
        } else if self.cursor < self.text.len() {
            self.cursor = self.cursor + 1;
        }
    }
}

impl NameEditor {
    /// Move the cursor to the start, dropping the selection.
    pub fn move_home(&mut self)
        ensures
            final(self).chars() == old(self).chars(),
            final(self).position() == 0,
            !final(self).all_selected(),
            final(self).has_error() == old(self).has_error(),
            final(self).composition() == old(self).composition(),
            final(self).renames() == old(self).renames(),
    {
        proof {
            use_type_invariant(&*self);
        }
        self.select_all = false;
        self.cursor = 0;
    }

    /// Move the cursor to the end, dropping the selection.
    pub fn move_end(&mut self)
        ensures
            final(self).chars() == old(self).chars(),
            final(self).position() == old(self).chars().len(),
            !final(self).all_selected(),
            final(self).has_error() == old(self).has_error(),
            final(self).composition() == old(self).composition(),
            final(self).renames() == old(self).renames(),
    {
        proof {
            use_type_invariant(&*self);
        }
        self.select_all = false;
        self.cursor = self.text.len();
    }

    /// Select the whole text.
    pub fn select_all(&mut self)
        ensures
            final(self).chars() == old(self).chars(),
            final(self).position() == old(self).position(),
            final(self).all_selected(),
            final(self).has_error() == old(self).has_error(),
            final(self).composition() == old(self).composition(),
            final(self).renames() == old(self).renames(),
    {
        proof {
            use_type_invariant(&*self);
        }
        self.select_all = true;
    }

    /// Show `text` as the input method's pending composition.
    pub fn set_composition(&mut self, text: &str)
        ensures
            final(self).chars() == old(self).chars(),
            final(self).position() == old(self).position(),
            final(self).all_selected() == old(self).all_selected(),
            final(self).has_error() == old(self).has_error(),
            final(self).composition() == text@,
            final(self).renames() == old(self).renames(),
    {
        proof {
            use_type_invariant(&*self);
        }
        self.preedit = chars_of(text);
    }

    /// Drop the pending composition.
    pub fn clear_composition(&mut self)
        ensures
            final(self).chars() == old(self).chars(),
            final(self).position() == old(self).position(),
            final(self).all_selected() == old(self).all_selected(),
            final(self).has_error() == old(self).has_error(),
            final(self).composition().len() == 0,
            final(self).renames() == old(self).renames(),
    {
        proof {
            use_type_invariant(&*self);
        }
        self.preedit = Vec::new();
    }

    /// Show why the name could not be used.
    pub fn set_error(&mut self, message: String)
        ensures
            final(self).chars() == old(self).chars(),
            final(self).position() == old(self).position(),
            final(self).all_selected() == old(self).all_selected(),
            final(self).has_error(),
            final(self).shown_error() == Some(message@),
            final(self).composition() == old(self).composition(),
            final(self).renames() == old(self).renames(),
    {
        proof {
            use_type_invariant(&*self);
        }
        self.error = Some(message);
    }

    /// The error shown, if any.
    pub fn error(&self) -> (r: Option<&String>)
        ensures
            r is Some == self.has_error(),
            match r {
                Some(message) => self.shown_error() == Some(message@),
                None => self.shown_error() is None,
            },
    {
        self.error.as_ref()
    }

    /// What the editor renames.
    pub fn target(&self) -> (r: NameTarget)
        ensures
            r == self.renames(),
    {
        self.target
    }
}

/// The keys the name editor reacts to.
#[derive(Clone, Copy, Debug, PartialEq, Eq, Structural)]
pub enum EditorKey {
    Enter,
    Escape,
    Backspace,
    Delete,
    ArrowLeft,
    ArrowRight,
    Home,
    End,
    Space,
    /// A key that types text.
    Character,
    Other,
}

/// What a key asks of the name editor.
#[derive(Clone, Copy, Debug, PartialEq, Eq, Structural)]
pub enum EditorAction {
    /// A released key: the editor does not take it.
    NotTaken,
    Commit,
    Cancel,
    Backspace,
    Delete,
    Left,
    Right,
    Home,
    End,
    /// Type a space.
    InsertSpace,
    SelectAll,
    /// Type the key's text.
    InsertText,
    /// The editor takes the key and does nothing with it.
    Swallow,
}

/// Whether `text` is the letter A, in either case.
pub open spec fn is_letter_a(text: Seq<char>) -> bool {
    text == seq!['a'] || text == seq!['A']
}

/// What a key asks of the name editor.
pub open spec fn editor_action(key: EditorKey, text: Seq<char>, pressed: bool, shell_modifier: bool) -> EditorAction {
    if !pressed {
        EditorAction::NotTaken
    } else {
        match key {
            EditorKey::Enter => EditorAction::Commit,
            EditorKey::Escape => EditorAction::Cancel,
            EditorKey::Backspace => EditorAction::Backspace,
            EditorKey::Delete => EditorAction::Delete,
            EditorKey::ArrowLeft => EditorAction::Left,
            EditorKey::ArrowRight => EditorAction::Right,
            EditorKey::Home => EditorAction::Home,
            EditorKey::End => EditorAction::End,
            EditorKey::Space => EditorAction::InsertSpace,
            EditorKey::Character => if shell_modifier && is_letter_a(text) {
                EditorAction::SelectAll
            } else if !shell_modifier {
                EditorAction::InsertText
            } else {
                EditorAction::Swallow
            },
            EditorKey::Other => EditorAction::Swallow,
        }
    }
}

/// What a key asks of the name editor: Enter commits, Escape cancels, the editing keys edit,
/// the shell modifier with A selects everything, text keys without it type, and the editor
/// swallows every other pressed key. `text` is what a text key types.
pub fn name_editor_action(key: EditorKey, text: &str, pressed: bool, shell_modifier: bool) -> (r: EditorAction)
    ensures
        r == editor_action(key, text@, pressed, shell_modifier),
{
    if !pressed {
        return EditorAction::NotTaken;
    }
    match key {
        EditorKey::Enter => EditorAction::Commit,
        EditorKey::Escape => EditorAction::Cancel,
        EditorKey::Backspace => EditorAction::Backspace,
        EditorKey::Delete => EditorAction::Delete,
        EditorKey::ArrowLeft => EditorAction::Left,
        EditorKey::ArrowRight => EditorAction::Right,
        EditorKey::Home => EditorAction::Home,
        EditorKey::End => EditorAction::End,
        EditorKey::Space => EditorAction::InsertSpace,
        EditorKey::Character => {
            let chars = chars_of(text);
            let letter_a = chars.len() == 1 && (chars[0] == 'a' || chars[0] == 'A');
            proof {
                if chars@.len() == 1 {
                    if chars@[0] == 'a' {
                        assert(chars@ =~= seq!['a']);
                    }
                    if chars@[0] == 'A' {
                        assert(chars@ =~= seq!['A']);
                    }
                }
            }
            if shell_modifier && letter_a {
                EditorAction::SelectAll
            } else if !shell_modifier {
                EditorAction::InsertText
            } else {
                EditorAction::Swallow
            }
        },
        EditorKey::Other => EditorAction::Swallow,
    }
}

/// What the rename editor shows: its title, the field's text and the error, if any.
#[derive(Clone, Copy, Debug)]
pub struct RenameEditorRenderState<'a> {
    pub label: &'a str,
    pub display_value: &'a str,
    pub error: Option<&'a str>,
}

/// The title of the rename editor for what it renames.
pub fn rename_editor_label(target: NameTarget) -> (r: &'static str)
    ensures
        r@ == match target {
            NameTarget::Workspace(_) => "Rename Workspace"@,
            NameTarget::Tab { .. } => "Rename Tab"@,
        },
{
    match target {
        NameTarget::Workspace(_) => "Rename Workspace",
        NameTarget::Tab { .. } => "Rename Tab",
    }
}

/// Append `source[from..to]` to `out`.
fn append_chars(out: &mut Vec<char>, source: &Vec<char>, from: usize, to: usize)
    requires
        from <= to <= source@.len(),
    ensures
        final(out)@ == old(out)@ + source@.subrange(from as int, to as int),
{
    let mut i = from;
    while i < to
        invariant
            from <= i <= to,
            to <= source@.len(),
            out@ == old(out)@ + source@.subrange(from as int, i as int),
        decreases to - i,
    {
        out.push(source[i]);
        proof {
            assert(source@.subrange(from as int, i + 1) =~= source@.subrange(from as int, i as int).push(source@[i as int]));
        }
        i = i + 1;
    }
}

/// `text` without its character at `at`.
fn without(text: &Vec<char>, at: usize) -> (r: Vec<char>)
    requires
        at < text@.len(),
    ensures
        r@ == text@.remove(at as int),
{
    let mut out: Vec<char> = Vec::new();
    let len = text.len();
    append_chars(&mut out, text, 0, at);
    append_chars(&mut out, text, at + 1, len);
    proof {
        assert(out@ =~= text@.remove(at as int));
    }
    out
}

/// Scanning stops once `room` printable characters are kept, so what is kept is the first
/// `room` printable characters (or all of them).
proof fn lemma_printable_prefix(s: Seq<char>, i: int, room: int)
    requires
        0 <= i <= s.len(),
        printable(s.subrange(0, i)).len() <= room,
        printable(s.subrange(0, i)).len() < room ==> i == s.len(),
    ensures
        printable(s.subrange(0, i)) == if printable(s).len() <= room {
            printable(s)
        } else {
            printable(s).subrange(0, room)
        },
{
    lemma_printable_concat(s.subrange(0, i), s.subrange(i, s.len() as int));
    assert(s =~= s.subrange(0, i) + s.subrange(i, s.len() as int));
    if i == s.len() {
        assert(s.subrange(0, i) =~= s);
        assert(s.subrange(i, s.len() as int) =~= Seq::<char>::empty());
    }
}

/// Filtering distributes over concatenation.
proof fn lemma_printable_concat(a: Seq<char>, b: Seq<char>)
    ensures
        printable(a + b) == printable(a) + printable(b),
    decreases b.len(),
{
    reveal_with_fuel(Seq::filter, 1);
    if b.len() == 0 {
        assert(a + b =~= a);
        assert(printable(b) =~= Seq::<char>::empty());
    } else {
        lemma_printable_concat(a, b.drop_last());
        assert((a + b).drop_last() =~= a + b.drop_last());
        assert((a + b).last() == b.last());
    }
}

} // verus!
