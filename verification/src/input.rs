//! Keys and text editing for the board's input boxes. A cursor is a byte
//! offset into the text that always falls between two characters.
use vstd::prelude::*;
use crate::text::{chars_of, string_of, len_utf8, utf8_len, char_width, at_char_start, char_index,
    lemma_char_index, lemma_utf8_len_grows, lemma_utf8_len_step, lemma_utf8_len_prefix,
    lemma_encode_concat, lemma_char_width};

verus! {

/// A key press, as the board reads it.
#[derive(Clone, Copy, Debug, PartialEq, Eq, Structural)]
pub enum Key {
    Char(char),
    Esc,
    Enter,
    Tab,
    BackTab,
    Left,
    Right,
    Up,
    Down,
    Home,
    End,
    Backspace,
    Delete,
    Other,
}

/// A text and a cursor after one key press in an input box: the arrows
/// move by one character, Home and End go to the ends, Backspace and
/// Delete remove the character before or after the cursor, and a
/// character is typed at the cursor. Other keys change nothing.
pub open spec fn edited(s: Seq<char>, pos: int, key: Key) -> (Seq<char>, int) {
    let k = char_index(s, pos);
    match key {
        Key::Left => if k > 0 {
            (s, utf8_len(s.take(k - 1)) as int)
        } else {
            (s, pos)
        },
        Key::Right => if k < s.len() {
            (s, utf8_len(s.take(k + 1)) as int)
        } else {
            (s, pos)
        },
        Key::Home => (s, 0),
        Key::End => (s, utf8_len(s) as int),
        Key::Backspace => if k > 0 {
            (s.take(k - 1) + s.skip(k), utf8_len(s.take(k - 1)) as int)
        } else {
            (s, pos)
        },
        Key::Delete => if k < s.len() {
            (s.take(k) + s.skip(k + 1), pos)
        } else {
            (s, pos)
        },
        Key::Char(c) => (s.take(k).push(c) + s.skip(k), pos + char_width(c)),
        _ => (s, pos),
    }
}

/// The character position of a cursor.
pub(crate) fn cursor_index(cs: &Vec<char>, pos: usize) -> (r: usize)
    requires
        at_char_start(cs@, pos as int),
    ensures
        r as int == char_index(cs@, pos as int),
        r <= cs@.len(),
        pos as int == utf8_len(cs@.take(r as int)),
{
    let ghost k0 = char_index(cs@, pos as int);
    proof {
        lemma_char_index(cs@, k0);
    }
    let len: usize = cs.len();
    let mut i: usize = 0;
    let mut off: usize = 0;
    proof {
        assert(cs@.take(0) =~= Seq::<char>::empty());
    }
    while off < pos
        invariant
            0 <= k0 <= cs@.len(),
            len == cs@.len(),
            pos as int == utf8_len(cs@.take(k0)),
            0 <= i <= k0,
            off as int == utf8_len(cs@.take(i as int)),
        decreases pos - off,
    {
        proof {
            assert(i < k0);
            lemma_utf8_len_step(cs@, i as int);
            lemma_utf8_len_grows(cs@, i + 1, k0);
        }
        off = off + len_utf8(cs[i]);
        i = i + 1;
    }
    proof {
        if i < k0 {
            lemma_utf8_len_grows(cs@, i as int, k0);
        }
    }
    i
}

/// Apply a key press to the text and the cursor of an input box.
pub fn edit_text(value: &mut String, cursor: &mut usize, key: Key)
    requires
        at_char_start(old(value)@, *old(cursor) as int),
        key is Char ==> utf8_len(old(value)@) + char_width(key->0) <= usize::MAX,
    ensures
        (final(value)@, *final(cursor) as int) == edited(old(value)@, *old(cursor) as int, key),
        at_char_start(final(value)@, *final(cursor) as int),
{
    let cs = chars_of(value.as_str());
    let n: usize = value.as_str().as_bytes().len();
    let k = cursor_index(&cs, *cursor);
    let ghost s = cs@;
    proof {
        lemma_utf8_len_prefix(s, k as int);
        assert(s.take(s.len() as int) =~= s);
        lemma_char_index(s, s.len() as int);
        lemma_char_index(s, 0);
        assert(s.take(0) =~= Seq::<char>::empty());
        if k > 0 {
            lemma_char_index(s, k - 1);
            lemma_utf8_len_step(s, k - 1);
        }
        if k < s.len() {
            lemma_char_index(s, k + 1);
            lemma_utf8_len_step(s, k as int);
            lemma_utf8_len_prefix(s, k + 1);
        }
    }
    match key {
        Key::Left => {
            if k > 0 {
                *cursor = *cursor - len_utf8(cs[k - 1]);
            }
        },
        Key::Right => {
            if k < cs.len() {
                *cursor = *cursor + len_utf8(cs[k]);
            }
        },
        Key::Home => {
            *cursor = 0;
        },
        Key::End => {
            *cursor = n;
        },
        Key::Backspace => {
            if k > 0 {
                let mut v = cs.clone();
                v.remove(k - 1);
                let new_pos: usize = *cursor - len_utf8(cs[k - 1]);
                proof {
                    assert(v@ =~= s.take(k - 1) + s.skip(k as int));
                    assert(v@.take(k - 1) =~= s.take(k - 1));
                    lemma_char_index(v@, k - 1);
                }
                *value = string_of(&v);
                *cursor = new_pos;
            }
        },
        Key::Delete => {
            if k < cs.len() {
                let mut v = cs.clone();
                v.remove(k);
                proof {
                    assert(v@ =~= s.take(k as int) + s.skip(k + 1));
                    assert(v@.take(k as int) =~= s.take(k as int));
                    lemma_char_index(v@, k as int);
                }
                *value = string_of(&v);
            }
        },
        Key::Char(c) => {
            let mut v = cs.clone();
            v.insert(k, c);
            let w = len_utf8(c);
            proof {
                assert(v@ =~= s.take(k as int).push(c) + s.skip(k as int));
                assert(v@.take(k + 1) =~= s.take(k as int).push(c));
                lemma_utf8_len_step(v@, k as int);
                assert(v@.take(k as int) =~= s.take(k as int));
                lemma_char_index(v@, k + 1);
                lemma_utf8_len_prefix(v@, k + 1);
                assert(v@.take(v@.len() as int) =~= v@);
                lemma_encode_concat(s.take(k as int).push(c), s.skip(k as int));
            }
            *value = string_of(&v);
            *cursor = *cursor + w;
        },
        _ => {},
    }
}

} // verus!

verus! {

/// One labelled input box of a form.
#[derive(Clone)]
pub struct InputField {
    pub label: &'static str,
    pub value: String,
    pub placeholder: &'static str,
    /// Cursor position in the value (byte offset, always between two
    /// characters).
    pub cursor_pos: usize,
}

impl InputField {
    /// The cursor falls between two characters of the value.
    pub open spec fn wf(&self) -> bool {
        at_char_start(self.value@, self.cursor_pos as int)
    }

    /// A box holding `value`, with the cursor at its end.
    pub fn new(label: &'static str, value: String, placeholder: &'static str) -> (r: InputField)
        ensures
            r.label == label,
            r.placeholder == placeholder,
            r.value@ == value@,
            r.cursor_pos as int == utf8_len(value@),
            r.wf(),
    {
        let n: usize = value.as_str().as_bytes().len();
        proof {
            assert(value@.take(value@.len() as int) =~= value@);
            lemma_char_index(value@, value@.len() as int);
        }
        InputField { label, value, placeholder, cursor_pos: n }
    }
}

/// Whether a key press can be applied to a text of this length without the
/// result outgrowing the address space.
pub open spec fn fits_key(s: Seq<char>, key: Key) -> bool {
    key is Char ==> utf8_len(s) + char_width(key->0) <= usize::MAX
}

/// Apply a key press to one input box (cursor movement, typing, deletion).
pub fn handle_field_key(field: &mut InputField, key: Key)
    requires
        old(field).wf(),
        fits_key(old(field).value@, key),
    ensures
        final(field).wf(),
        final(field).label == old(field).label,
        final(field).placeholder == old(field).placeholder,
        (final(field).value@, final(field).cursor_pos as int) == edited(
            old(field).value@,
            old(field).cursor_pos as int,
            key,
        ),
{
    edit_text(&mut field.value, &mut field.cursor_pos, key);
}

/// A destructive action waiting for the user's confirmation.
#[derive(Clone, Debug)]
pub enum PendingAction {
    DeleteTask(String),
    KillTask(String),
}

/// What the keyboard is currently driving.
pub enum InputMode {
    /// Normal navigation and actions.
    Normal,
    /// Creating a new task: multi-field form.
    NewTask { fields: Vec<InputField>, active_field: usize },
    /// Editing an existing backlog task: multi-field form.
    EditTask { task_id: String, fields: Vec<InputField>, active_field: usize },
    /// Sending a message to a running agent.
    SendMessage { input: String, cursor_pos: usize },
    /// Confirming a destructive action (delete, kill).
    Confirm { prompt: String, action: PendingAction },
    /// Quick prompt palette: a key sends a predefined prompt.
    QuickPrompts,
}

} // verus!

verus! {

/// Typing a character and then pressing Backspace gives back the text and
/// the cursor as they were.
pub proof fn law_type_then_backspace(s: Seq<char>, pos: int, c: char)
    requires
        at_char_start(s, pos),
    ensures
        ({
            let typed = edited(s, pos, Key::Char(c));
            edited(typed.0, typed.1, Key::Backspace) == (s, pos)
        }),
{
    let k = char_index(s, pos);
    let t = s.take(k).push(c) + s.skip(k);
    assert(t.take(k + 1) =~= s.take(k).push(c));
    assert(t.take(k) =~= s.take(k));
    lemma_utf8_len_step(t, k);
    lemma_char_index(t, k + 1);
    assert(t.take(k) + t.skip(k + 1) =~= s);
}

/// Every key press leaves the cursor between two characters.
pub proof fn law_cursor_stays_on_a_boundary(s: Seq<char>, pos: int, key: Key)
    requires
        at_char_start(s, pos),
    ensures
        at_char_start(edited(s, pos, key).0, edited(s, pos, key).1),
{
    let k = char_index(s, pos);
    assert(s.take(s.len() as int) =~= s);
    lemma_char_index(s, s.len() as int);
    lemma_char_index(s, 0);
    assert(s.take(0) =~= Seq::<char>::empty());
    if k > 0 {
        lemma_char_index(s, k - 1);
        let v = s.take(k - 1) + s.skip(k);
        assert(v.take(k - 1) =~= s.take(k - 1));
        lemma_char_index(v, k - 1);
    }
    if k < s.len() {
        lemma_char_index(s, k + 1);
        let v = s.take(k) + s.skip(k + 1);
        assert(v.take(k) =~= s.take(k));
        lemma_char_index(v, k);
    }
    match key {
        Key::Char(c) => {
            let v = s.take(k).push(c) + s.skip(k);
            assert(v.take(k + 1) =~= s.take(k).push(c));
            assert(v.take(k) =~= s.take(k));
            lemma_utf8_len_step(v, k);
            lemma_char_index(v, k + 1);
        },
        _ => {},
    }
}

} // verus!

verus! {

/// An input box as plain values.
pub struct FieldView {
    pub label: Seq<char>,
    pub value: Seq<char>,
    pub placeholder: Seq<char>,
    pub cursor: int,
}

impl View for InputField {
    type V = FieldView;

    open spec fn view(&self) -> FieldView {
        FieldView {
            label: self.label@,
            value: self.value@,
            placeholder: self.placeholder@,
            cursor: self.cursor_pos as int,
        }
    }
}

/// A pending action as plain values.
pub enum PendingView {
    DeleteTask(Seq<char>),
    KillTask(Seq<char>),
}

impl View for PendingAction {
    type V = PendingView;

    open spec fn view(&self) -> PendingView {
        match self {
            PendingAction::DeleteTask(id) => PendingView::DeleteTask(id@),
            PendingAction::KillTask(id) => PendingView::KillTask(id@),
        }
    }
}

/// The views of the boxes of a form.
pub open spec fn fields_view(v: Seq<InputField>) -> Seq<FieldView> {
    v.map_values(|f: InputField| f@)
}

/// An input mode as plain values.
pub enum ModeView {
    Normal,
    NewTask { fields: Seq<FieldView>, active: int },
    EditTask { task_id: Seq<char>, fields: Seq<FieldView>, active: int },
    SendMessage { input: Seq<char>, cursor: int },
    Confirm { prompt: Seq<char>, action: PendingView },
    QuickPrompts,
}

impl View for InputMode {
    type V = ModeView;

    open spec fn view(&self) -> ModeView {
        match self {
            InputMode::Normal => ModeView::Normal,
            InputMode::NewTask { fields, active_field } => ModeView::NewTask {
                fields: fields_view(fields@),
                active: *active_field as int,
            },
            InputMode::EditTask { task_id, fields, active_field } => ModeView::EditTask {
                task_id: task_id@,
                fields: fields_view(fields@),
                active: *active_field as int,
            },
            InputMode::SendMessage { input, cursor_pos } => ModeView::SendMessage {
                input: input@,
                cursor: *cursor_pos as int,
            },
            InputMode::Confirm { prompt, action } => ModeView::Confirm { prompt: prompt@, action: action@ },
            InputMode::QuickPrompts => ModeView::QuickPrompts,
        }
    }
}

/// The boxes of a task form: three of them (title, repository, details),
/// each with its cursor between two characters.
pub open spec fn form_wf(fields: Seq<FieldView>, active: int) -> bool {
    &&& fields.len() == 3
    &&& 0 <= active < 3
    &&& forall|i: int| 0 <= i < 3 ==> at_char_start((#[trigger] fields[i]).value, fields[i].cursor)
}

/// What every input mode keeps: forms have their three boxes, and every
/// cursor falls between two characters.
pub open spec fn mode_wf(m: ModeView) -> bool {
    match m {
        ModeView::NewTask { fields, active } => form_wf(fields, active),
        ModeView::EditTask { fields, active, .. } => form_wf(fields, active),
        ModeView::SendMessage { input, cursor } => at_char_start(input, cursor),
        _ => true,
    }
}

/// The boxes of a task form holding a title, a repository and details, in
/// that order, each with its cursor at its end.
pub open spec fn task_form(title: Seq<char>, repo: Seq<char>, details: Seq<char>) -> Seq<FieldView> {
    seq![
        FieldView { label: "Title"@, value: title, placeholder: "Short task description"@, cursor: utf8_len(title) as int },
        FieldView { label: "Repo"@, value: repo, placeholder: "/path/to/repo"@, cursor: utf8_len(repo) as int },
        FieldView {
            label: "Details"@,
            value: details,
            placeholder: "Detailed prompt for the agent (optional)"@,
            cursor: utf8_len(details) as int,
        },
    ]
}

/// The boxes of a task form, filled in, with the cursors at the ends.
pub fn task_form_fields(title: String, repo: String, details: String) -> (r: Vec<InputField>)
    ensures
        fields_view(r@) == task_form(title@, repo@, details@),
        form_wf(fields_view(r@), 0),
{
    let a = InputField::new("Title", title, "Short task description");
    let b = InputField::new("Repo", repo, "/path/to/repo");
    let c = InputField::new("Details", details, "Detailed prompt for the agent (optional)");
    let r = vec![a, b, c];
    proof {
        assert(fields_view(r@) =~= task_form(title@, repo@, details@));
    }
    r
}

} // verus!
