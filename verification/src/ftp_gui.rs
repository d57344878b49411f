//! The decisions of the graphical FTP client: what each button press and
//! each finished transfer does to the form, the status line and the
//! editor, and which transfer to start next. The front end performs the
//! transfers and reports their outcome back as events.
use vstd::prelude::*;
use crate::text::{push_str, string_of};
use vstd::string::StringSliceAdditionalSpecFns;
use vstd::utf8::encode_utf8;

verus! {

/// Everything the window shows.
pub struct GuiState {
    pub host: String,
    pub port: String,
    pub username: String,
    pub password: String,
    pub is_connected: bool,
    pub status_msg: String,
    pub file_list: String,
    pub target_file: String,
    pub editor_content: String,
    pub is_editing: bool,
}

/// The window's contents as plain values.
pub struct GuiView {
    pub host: Seq<char>,
    pub port: Seq<char>,
    pub username: Seq<char>,
    pub password: Seq<char>,
    pub is_connected: bool,
    pub status_msg: Seq<char>,
    pub file_list: Seq<char>,
    pub target_file: Seq<char>,
    pub editor_content: Seq<char>,
    pub is_editing: bool,
}

impl View for GuiState {
    type V = GuiView;

    open spec fn view(&self) -> GuiView {
        GuiView {
            host: self.host@,
            port: self.port@,
            username: self.username@,
            password: self.password@,
            is_connected: self.is_connected,
            status_msg: self.status_msg@,
            file_list: self.file_list@,
            target_file: self.target_file@,
            editor_content: self.editor_content@,
            is_editing: self.is_editing,
        }
    }
}

/// A user action, or the outcome of a transfer the front end performed.
pub enum GuiEvent {
    HostInput(String),
    PortInput(String),
    UsernameInput(String),
    PasswordInput(String),
    TargetInput(String),
    EditorInput(String),
    ConnectClicked,
    DisconnectClicked,
    RefreshClicked,
    ReadClicked,
    EditClicked,
    CancelClicked,
    SaveClicked,
    DeleteClicked,
    /// Connected and logged in.
    Connected,
    /// Connected, but the server refused the user name or the password.
    AuthFailed,
    /// The connection failed, with the error's text.
    ConnectFailed(String),
    /// The session was closed.
    Disconnected,
    /// The listing arrived.
    ListLoaded(String),
    /// The listing could not be fetched.
    ListFailed,
    /// The named file arrived, as text.
    Retrieved(String, String),
    /// The file could not be fetched, with the error's text.
    RetrieveFailed(String),
    /// The file was stored on the server.
    Saved,
    /// The file could not be stored, with the error's text.
    SaveFailed(String),
    /// The file was deleted on the server.
    Deleted,
    /// The file could not be deleted, with the error's text.
    DeleteFailed(String),
}

/// The transfer to perform next.
pub enum GuiAction {
    Nothing,
    /// Connect to `addr` and log in.
    Connect { addr: String, username: String, password: String },
    /// Close the session.
    Quit,
    /// Fetch the listing in passive mode.
    RefreshList,
    /// Fetch the named file in passive mode.
    Retrieve(String),
    /// Store the bytes under the name in passive mode.
    Send(String, Vec<u8>),
    /// Delete the named file.
    Delete(String),
}

/// The window right after start-up.
pub open spec fn initial_view() -> GuiView {
    GuiView {
        host: "ftp.dlptest.com"@,
        port: "21"@,
        username: "dlpuser"@,
        password: Seq::empty(),
        is_connected: false,
        status_msg: "Connect to a server"@,
        file_list: "Loading..."@,
        target_file: Seq::empty(),
        editor_content: Seq::empty(),
        is_editing: false,
    }
}

/// `s` with another status line.
pub open spec fn with_status(s: GuiView, status: Seq<char>) -> GuiView {
    GuiView { status_msg: status, ..s }
}

/// The window after `e`.
pub open spec fn gui_next(s: GuiView, e: GuiEvent) -> GuiView {
    match e {
        GuiEvent::HostInput(v) => GuiView { host: v@, ..s },
        GuiEvent::PortInput(v) => GuiView { port: v@, ..s },
        GuiEvent::UsernameInput(v) => GuiView { username: v@, ..s },
        GuiEvent::PasswordInput(v) => GuiView { password: v@, ..s },
        GuiEvent::TargetInput(v) => GuiView { target_file: v@, ..s },
        GuiEvent::EditorInput(v) => GuiView { editor_content: v@, ..s },
        GuiEvent::ConnectClicked => with_status(s, "Connecting..."@),
        GuiEvent::DisconnectClicked => s,
        GuiEvent::RefreshClicked => s,
        GuiEvent::ReadClicked => if s.target_file.len() == 0 {
            with_status(s, "Enter a filename"@)
        } else {
            with_status(s, "Downloading "@ + s.target_file + "..."@)
        },
        GuiEvent::EditClicked => GuiView { is_editing: true, ..s },
        GuiEvent::CancelClicked => GuiView { is_editing: false, ..s },
        GuiEvent::SaveClicked => if s.target_file.len() == 0 {
            with_status(s, "Enter a filename to save"@)
        } else {
            with_status(s, "Saving "@ + s.target_file + "..."@)
        },
        GuiEvent::DeleteClicked => if s.target_file.len() == 0 {
            with_status(s, "Enter a filename to delete"@)
        } else {
            with_status(s, "Deleting "@ + s.target_file + "..."@)
        },
        GuiEvent::Connected => GuiView {
            is_connected: true,
            status_msg: "Connected successfully"@,
            ..s
        },
        GuiEvent::AuthFailed => with_status(s, "Authentication failed"@),
        GuiEvent::ConnectFailed(err) => with_status(s, "Connection failed: "@ + err@),
        GuiEvent::Disconnected => GuiView { is_connected: false, status_msg: "Disconnected"@, ..s },
        GuiEvent::ListLoaded(list) => GuiView { file_list: list@, ..s },
        GuiEvent::ListFailed => with_status(s, "Failed to retrieve file list"@),
        GuiEvent::Retrieved(name, text) => GuiView {
            editor_content: text@,
            is_editing: true,
            status_msg: "Retrieved: "@ + name@,
            ..s
        },
        GuiEvent::RetrieveFailed(err) => with_status(s, "Failed to retrieve: "@ + err@),
        GuiEvent::Saved => GuiView {
            status_msg: "File saved to server"@,
            is_editing: false,
            ..s
        },
        GuiEvent::SaveFailed(err) => with_status(s, "Failed to save: "@ + err@),
        GuiEvent::Deleted => GuiView { status_msg: "File deleted."@, is_editing: false, ..s },
        GuiEvent::DeleteFailed(err) => with_status(s, "Failed to delete: "@ + err@),
    }
}

/// Whether `a` is the transfer that `e` starts in window `s`.
pub open spec fn gui_action(s: GuiView, e: GuiEvent, a: GuiAction) -> bool {
    match e {
        GuiEvent::ConnectClicked => a matches GuiAction::Connect { addr, username, password }
            && addr@ == s.host + ":"@ + s.port && username@ == s.username && password@
            == s.password,
        GuiEvent::DisconnectClicked => a is Quit,
        GuiEvent::RefreshClicked | GuiEvent::Connected | GuiEvent::Saved | GuiEvent::Deleted => a is RefreshList,
        GuiEvent::ReadClicked => if s.target_file.len() == 0 {
            a is Nothing
        } else {
            a matches GuiAction::Retrieve(name) && name@ == s.target_file
        },
        GuiEvent::SaveClicked => if s.target_file.len() == 0 {
            a is Nothing
        } else {
            a matches GuiAction::Send(name, data) && name@ == s.target_file && data@
                == encode_utf8(s.editor_content)
        },
        GuiEvent::DeleteClicked => if s.target_file.len() == 0 {
            a is Nothing
        } else {
            a matches GuiAction::Delete(name) && name@ == s.target_file
        },
        _ => a is Nothing,
    }
}

fn concat2(a: &str, b: &str) -> (res: String)
    ensures
        res@ == a@ + b@,
{
    let mut s = string_of(a);
    push_str(&mut s, b);
    s
}

fn concat3(a: &str, b: &str, c: &str) -> (res: String)
    ensures
        res@ == a@ + b@ + c@,
{
    let mut s = string_of(a);
    push_str(&mut s, b);
    push_str(&mut s, c);
    s
}

impl GuiState {
    /// The window right after start-up.
    pub fn new() -> (res: Self)
        ensures
            res@ == initial_view(),
    {
        let res = GuiState {
            host: string_of("ftp.dlptest.com"),
            port: string_of("21"),
            username: string_of("dlpuser"),
            password: String::new(),
            is_connected: false,
            status_msg: string_of("Connect to a server"),
            file_list: string_of("Loading..."),
            target_file: String::new(),
            editor_content: String::new(),
            is_editing: false,
        };
        assert(res@ =~= initial_view());
        res
    }

    /// Applies `event` to the window and says which transfer to start.
    pub fn step(&mut self, event: GuiEvent) -> (res: GuiAction)
        ensures
            final(self)@ == gui_next(old(self)@, event),
            gui_action(old(self)@, event, res),
    {
        match event {
            GuiEvent::HostInput(v) => {
                self.host = v;
                GuiAction::Nothing
            },
            GuiEvent::PortInput(v) => {
                self.port = v;
                GuiAction::Nothing
            },
            GuiEvent::UsernameInput(v) => {
                self.username = v;
                GuiAction::Nothing
            },
            GuiEvent::PasswordInput(v) => {
                self.password = v;
                GuiAction::Nothing
            },
            GuiEvent::TargetInput(v) => {
                self.target_file = v;
                GuiAction::Nothing
            },
            GuiEvent::EditorInput(v) => {
                self.editor_content = v;
                GuiAction::Nothing
            },
            GuiEvent::ConnectClicked => {
                self.status_msg = string_of("Connecting...");
                let addr = concat3(self.host.as_str(), ":", self.port.as_str());
                GuiAction::Connect {
                    addr,
                    username: self.username.clone(),
                    password: self.password.clone(),
                }
            },
            GuiEvent::DisconnectClicked => GuiAction::Quit,
            GuiEvent::RefreshClicked => GuiAction::RefreshList,
            GuiEvent::ReadClicked => {
                if self.target_file.as_str().is_empty() {
                    self.status_msg = string_of("Enter a filename");
                    GuiAction::Nothing
                } else {
                    self.status_msg = concat3("Downloading ", self.target_file.as_str(), "...");
                    GuiAction::Retrieve(self.target_file.clone())
                }
            },
            GuiEvent::EditClicked => {
                self.is_editing = true;
                GuiAction::Nothing
            },
            GuiEvent::CancelClicked => {
                self.is_editing = false;
                GuiAction::Nothing
            },
            GuiEvent::SaveClicked => {
                if self.target_file.as_str().is_empty() {
                    self.status_msg = string_of("Enter a filename to save");
                    GuiAction::Nothing
                } else {
                    self.status_msg = concat3("Saving ", self.target_file.as_str(), "...");
                    let data = utf8_bytes(self.editor_content.as_str());
                    GuiAction::Send(self.target_file.clone(), data)
                }
            },
            GuiEvent::DeleteClicked => {
                if self.target_file.as_str().is_empty() {
                    self.status_msg = string_of("Enter a filename to delete");
                    GuiAction::Nothing
                } else {
                    self.status_msg = concat3("Deleting ", self.target_file.as_str(), "...");
                    GuiAction::Delete(self.target_file.clone())
                }
            },
            GuiEvent::Connected => {
                self.is_connected = true;
                self.status_msg = string_of("Connected successfully");
                GuiAction::RefreshList
            },
            GuiEvent::AuthFailed => {
                self.status_msg = string_of("Authentication failed");
                GuiAction::Nothing
            },
            GuiEvent::ConnectFailed(err) => {
                self.status_msg = concat2("Connection failed: ", err.as_str());
                GuiAction::Nothing
            },
            GuiEvent::Disconnected => {
                self.is_connected = false;
                self.status_msg = string_of("Disconnected");
                GuiAction::Nothing
            },
            GuiEvent::ListLoaded(list) => {
                self.file_list = list;
                GuiAction::Nothing
            },
            GuiEvent::ListFailed => {
                self.status_msg = string_of("Failed to retrieve file list");
                GuiAction::Nothing
            },
            GuiEvent::Retrieved(name, text) => {
                self.editor_content = text;
                self.is_editing = true;
                self.status_msg = concat2("Retrieved: ", name.as_str());
                GuiAction::Nothing
            },
            GuiEvent::RetrieveFailed(err) => {
                self.status_msg = concat2("Failed to retrieve: ", err.as_str());
                GuiAction::Nothing
            },
            GuiEvent::Saved => {
                self.status_msg = string_of("File saved to server");
                self.is_editing = false;
                GuiAction::RefreshList
            },
            GuiEvent::SaveFailed(err) => {
                self.status_msg = concat2("Failed to save: ", err.as_str());
                GuiAction::Nothing
            },
            GuiEvent::Deleted => {
                self.status_msg = string_of("File deleted.");
                self.is_editing = false;
                GuiAction::RefreshList
            },
            GuiEvent::DeleteFailed(err) => {
                self.status_msg = concat2("Failed to delete: ", err.as_str());
                GuiAction::Nothing
            },
        }
    }
}

/// The UTF-8 encoding of a string.
fn utf8_bytes(s: &str) -> (res: Vec<u8>)
    ensures
        res@ == encode_utf8(s@),
{
    let b = s.as_bytes();
    let mut v: Vec<u8> = Vec::new();
    let n = b.len();
    let mut i: usize = 0;
    while i < n
        invariant
            n == b@.len(),
            i <= n,
            v@ == b@.subrange(0, i as int),
        decreases n - i,
    {
        v.push(b[i]);
        i = i + 1;
        assert(v@ =~= b@.subrange(0, i as int));
    }
    assert(v@ =~= b@);
    v
}

} // verus!
