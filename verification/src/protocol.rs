//! Wire message shapes of the engine protocol.
//!
//! Messages are line-delimited JSON objects; the types here mirror the JSON
//! shapes one to one so that the boundary performs a single decoding step.
//! Serialization itself lives outside the library; the library works on the
//! decoded values.

use vstd::prelude::*;

verus! {

/// The JSON value type of the serialization library, declared so that engine
/// result and error payloads can be carried through the library opaquely.
#[verifier::external_type_specification]
#[verifier::external_body]
pub struct ExValue(serde_json::Value);

/// The identifier of an open document view, assigned by the engine.
#[derive(Clone, Debug)]
pub struct ViewId(pub String);

/// A plugin the engine reports as available.
#[derive(Clone, Debug)]
pub struct Plugin {
    pub name: String,
    pub running: bool,
}

/// Configuration changes delivered by the engine, as key/value pairs.
#[derive(Debug)]
pub struct ConfigChanges {
    pub other: Vec<(String, serde_json::Value)>,
}

/// One wire message: a call expecting an answer, an answer correlated by id,
/// or a one-way notification.
#[derive(Debug)]
pub enum Message {
    Request { id: u64, req: Request },
    Response { id: u64, res: Response },
    Notification(Notification),
}

/// A call to the engine that expects an answer.
#[derive(Debug)]
pub enum Request {
    NewView { file_path: Option<String> },
}

/// An answer from the engine. Exactly one of `result` and `error` is present
/// in a well-formed response; anything else is a protocol violation.
#[derive(Debug)]
pub struct Response {
    pub result: Option<serde_json::Value>,
    pub error: Option<serde_json::Value>,
}

/// An error produced while interpreting an engine answer.
#[derive(Debug)]
pub enum CoreError {
    /// The engine answered the request with an error value.
    BadResponse(serde_json::Value),
    /// The response carried both or neither of `result` and `error`: a
    /// protocol violation that cannot be attributed to the request.
    InvalidResponse,
}

impl Response {
    /// Turns a response into the engine's result value, an engine-reported
    /// error, or a protocol violation when not exactly one of the two fields
    /// is present.
    pub fn into_result(self) -> (r: Result<serde_json::Value, CoreError>)
        ensures
            r == (match (self.result, self.error) {
                (Some(v), None) => Ok::<serde_json::Value, CoreError>(v),
                (None, Some(e)) => Err::<serde_json::Value, CoreError>(CoreError::BadResponse(e)),
                _ => Err::<serde_json::Value, CoreError>(CoreError::InvalidResponse),
            }),
    {
        match (self.result, self.error) {
            (Some(result), None) => Ok(result),
            (None, Some(error)) => Err(CoreError::BadResponse(error)),
            _ => Err(CoreError::InvalidResponse),
        }
    }
}

/// A one-way message, in either direction.
#[derive(Debug)]
pub enum Notification {
    ClientStarted { config_dir: Option<String>, client_extras_dir: Option<String> },
    Edit { method: EditMethod, view_id: ViewId },
    SetTheme { theme_name: String },
    AvailableThemes { themes: Vec<String> },
    AvailablePlugins { view_id: ViewId, plugins: Vec<Plugin> },
    ConfigChanged { view_id: ViewId, changes: ConfigChanges },
    DefStyle {
        id: u64,
        fg_color: Option<u32>,
        bg_color: Option<u32>,
        weight: Option<u16>,
        underline: Option<bool>,
        italic: Option<bool>,
    },
    FindStatus { view_id: ViewId, queries: Vec<serde_json::Value> },
    PluginStarted { view_id: ViewId, plugin: String },
    Update { view_id: ViewId, update: Update },
    UpdateCmds { view_id: ViewId, plugin: String, cmds: Vec<serde_json::Value> },
    ScrollTo { view_id: ViewId, line: u64, col: u64 },
    ThemeChanged { name: String, theme: ThemeSettings },
}

/// One editing method of an `edit` notification.
#[derive(Clone, Debug)]
pub enum EditMethod {
    Insert { chars: String },
    Scroll(u16, u16),
    DeleteBackward,
    MoveUp,
    MoveDown,
    MoveLeft,
    MoveRight,
    MoveWordLeft,
    MoveWordRight,
}

/// An update payload delivered by an `update` notification: an ordered list
/// of diff operations, a pristine flag, and an optional revision number.
#[derive(Debug)]
pub struct Update {
    pub rev: Option<u64>,
    pub ops: Vec<Op>,
    pub pristine: bool,
}

/// One diff operation of an update. `lines` is present only for `Ins` ops.
#[derive(Debug)]
pub struct Op {
    pub op: OpKind,
    pub n: u64,
    pub lines: Option<Vec<Line>>,
}

/// The kind of a diff operation.
#[derive(Clone, Copy, Debug, PartialEq, Eq, Structural)]
pub enum OpKind {
    Copy,
    Skip,
    Invalidate,
    Update,
    Ins,
}

/// One line as sent on the wire. All fields are optional in the JSON shape;
/// an `Ins` operation must carry lines whose `text` is present.
#[derive(Debug)]
pub struct Line {
    pub text: Option<String>,
    pub cursor: Option<Vec<u64>>,
    pub styles: Option<Vec<i64>>,
}

impl Default for Line {
    fn default() -> (l: Line)
        ensures
            l.text is None,
            l.cursor is None,
            l.styles is None,
    {
        Line { text: None, cursor: None, styles: None }
    }
}

/// A color as sent on the wire by a theme change.
#[derive(Clone, Copy, Debug, PartialEq, Eq, Structural)]
pub struct Color {
    pub r: u8,
    pub g: u8,
    pub b: u8,
}

/// The theme colors delivered by a theme-changed notification.
#[derive(Clone, Copy, Debug)]
pub struct ThemeSettings {
    pub foreground: Option<Color>,
    pub background: Option<Color>,
}

} // verus!
