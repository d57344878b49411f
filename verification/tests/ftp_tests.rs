use netlabs::ftp::{
    command_line, message_line, parse_pasv, parse_reply_line, parse_unsigned_bytes, FtpError,
    MultiReply, MultiStep, ResponseCode,
};
use netlabs::ftp_gui::{GuiAction, GuiEvent, GuiState};
use netlabs::remote_exec::{error_report, status_report, tagged_line, CliCommand, OutputStream};
use netlabs::transfer::{
    download_command, local_file_name, parse_command, storage_path, upload_command,
    TransferCommand,
};

#[test]
fn response_code_classes() {
    let ok = ResponseCode::from_code(226);
    assert!(ok.is_ok() && !ok.is_err() && !ok.is_incomplete());
    let pre = ResponseCode::from_code(150);
    assert!(pre.is_incomplete() && !pre.is_ok());
    let err = ResponseCode::from_code(530);
    assert!(err.is_err());
    assert!(ResponseCode::from_code(450).is_err());
    assert!(!ResponseCode::from_code(331).is_ok());
}

#[test]
fn command_lines() {
    assert_eq!(message_line("USER", "dlpuser"), "USER dlpuser\n");
    assert_eq!(command_line("PASV"), "PASV\n");
}

#[test]
fn reply_line_parsing() {
    let (code, msg) = parse_reply_line("227 Entering Passive Mode (1,2,3,4,5,6).\r\n").unwrap();
    assert_eq!(code.code, 227);
    assert_eq!(msg, " Entering Passive Mode (1,2,3,4,5,6).");
    let (code, msg) = parse_reply_line("200 ").unwrap();
    assert_eq!(code.code, 200);
    assert_eq!(msg, "");
    match parse_reply_line(" 2\n") {
        Err(FtpError::Unparsable(t)) => assert_eq!(t, "2"),
        _ => panic!("short line must be refused"),
    }
    assert!(matches!(parse_reply_line("abc hello"), Err(FtpError::BadNumber)));
}

#[test]
fn unsigned_literals() {
    assert_eq!(parse_unsigned_bytes(b"255", 255), Some(255));
    assert_eq!(parse_unsigned_bytes(b"+7", 255), Some(7));
    assert_eq!(parse_unsigned_bytes(b"256", 255), None);
    assert_eq!(parse_unsigned_bytes(b"", 255), None);
    assert_eq!(parse_unsigned_bytes(b"+", 255), None);
    assert_eq!(parse_unsigned_bytes(b"1a", 255), None);
    assert_eq!(parse_unsigned_bytes(b"007", 255), Some(7));
}

#[test]
fn pasv_address() {
    let (ip, port) = parse_pasv(" Entering Passive Mode (192,168,1,2,19,137).").unwrap();
    assert_eq!(ip, [192, 168, 1, 2]);
    assert_eq!(port, 19 * 256 + 137);
    assert!(matches!(parse_pasv("no parentheses"), Err(FtpError::Unparsable(_))));
    assert!(matches!(parse_pasv("(1,2,3,4,5)"), Err(FtpError::Unparsable(_))));
    assert!(matches!(parse_pasv("(1,2,3,4,5,300)"), Err(FtpError::BadNumber)));
}

#[test]
fn multi_line_replies() {
    let mut r = MultiReply::new();
    assert!(matches!(
        r.feed(ResponseCode::from_code(150), " Opening data".to_string()),
        MultiStep::More
    ));
    assert!(matches!(r.feed(ResponseCode::from_code(226), "-partial".to_string()), MultiStep::More));
    match r.feed(ResponseCode::from_code(226), " Done".to_string()) {
        MultiStep::Done(code, lines) => {
            assert_eq!(code.code, 226);
            assert_eq!(lines, vec![" Opening data".to_string(), "-partial".into(), " Done".into()]);
        }
        _ => panic!("expected completion"),
    }
    let mut r = MultiReply::new();
    match r.feed(ResponseCode::from_code(550), " No such file".to_string()) {
        MultiStep::Failed(m) => assert_eq!(m, " No such file"),
        _ => panic!("expected failure"),
    }
}

#[test]
fn gui_connect_flow() {
    let mut gui = GuiState::new();
    assert_eq!(gui.status_msg, "Connect to a server");
    assert_eq!(gui.file_list, "Loading...");
    gui.step(GuiEvent::PasswordInput("secret".to_string()));
    match gui.step(GuiEvent::ConnectClicked) {
        GuiAction::Connect { addr, username, password } => {
            assert_eq!(addr, "ftp.dlptest.com:21");
            assert_eq!(username, "dlpuser");
            assert_eq!(password, "secret");
        }
        _ => panic!("expected a connection"),
    }
    assert_eq!(gui.status_msg, "Connecting...");
    assert!(matches!(gui.step(GuiEvent::Connected), GuiAction::RefreshList));
    assert!(gui.is_connected);
    assert_eq!(gui.status_msg, "Connected successfully");
    gui.step(GuiEvent::ListLoaded("a.txt\nb.txt".to_string()));
    assert_eq!(gui.file_list, "a.txt\nb.txt");
    gui.step(GuiEvent::ConnectFailed("refused".to_string()));
    assert_eq!(gui.status_msg, "Connection failed: refused");
    assert!(matches!(gui.step(GuiEvent::DisconnectClicked), GuiAction::Quit));
    gui.step(GuiEvent::Disconnected);
    assert!(!gui.is_connected);
    assert_eq!(gui.status_msg, "Disconnected");
}

#[test]
fn gui_file_operations() {
    let mut gui = GuiState::new();
    assert!(matches!(gui.step(GuiEvent::ReadClicked), GuiAction::Nothing));
    assert_eq!(gui.status_msg, "Enter a filename");
    assert!(matches!(gui.step(GuiEvent::SaveClicked), GuiAction::Nothing));
    assert_eq!(gui.status_msg, "Enter a filename to save");
    assert!(matches!(gui.step(GuiEvent::DeleteClicked), GuiAction::Nothing));
    assert_eq!(gui.status_msg, "Enter a filename to delete");
    gui.step(GuiEvent::TargetInput("x.txt".to_string()));
    match gui.step(GuiEvent::ReadClicked) {
        GuiAction::Retrieve(name) => assert_eq!(name, "x.txt"),
        _ => panic!("expected a download"),
    }
    assert_eq!(gui.status_msg, "Downloading x.txt...");
    gui.step(GuiEvent::Retrieved("x.txt".to_string(), "héllo".to_string()));
    assert!(gui.is_editing);
    assert_eq!(gui.editor_content, "héllo");
    assert_eq!(gui.status_msg, "Retrieved: x.txt");
    match gui.step(GuiEvent::SaveClicked) {
        GuiAction::Send(name, data) => {
            assert_eq!(name, "x.txt");
            assert_eq!(data, "héllo".as_bytes().to_vec());
        }
        _ => panic!("expected an upload"),
    }
    assert_eq!(gui.status_msg, "Saving x.txt...");
    assert!(matches!(gui.step(GuiEvent::Saved), GuiAction::RefreshList));
    assert!(!gui.is_editing);
    match gui.step(GuiEvent::DeleteClicked) {
        GuiAction::Delete(name) => assert_eq!(name, "x.txt"),
        _ => panic!("expected a deletion"),
    }
    gui.step(GuiEvent::DeleteFailed("550".to_string()));
    assert_eq!(gui.status_msg, "Failed to delete: 550");
    gui.step(GuiEvent::EditClicked);
    assert!(gui.is_editing);
    gui.step(GuiEvent::CancelClicked);
    assert!(!gui.is_editing);
    gui.step(GuiEvent::ListFailed);
    assert_eq!(gui.status_msg, "Failed to retrieve file list");
}

#[test]
fn transfer_commands() {
    match parse_command("UPLOAD:dir/report.pdf") {
        TransferCommand::Upload { file_name } => assert_eq!(file_name, Some("report.pdf".to_string())),
        _ => panic!("expected upload"),
    }
    match parse_command("DOWNLOAD:data.bin") {
        TransferCommand::Download { name } => assert_eq!(name, "data.bin"),
        _ => panic!("expected download"),
    }
    assert!(matches!(parse_command("HELLO"), TransferCommand::Other));
    assert_eq!(storage_path("f.txt"), "data/f.txt");
    assert_eq!(upload_command("f.txt"), "UPLOAD:f.txt");
    assert_eq!(download_command("f.txt"), "DOWNLOAD:f.txt");
    assert_eq!(local_file_name("/tmp/x/y.txt"), Some("y.txt".to_string()));
    assert_eq!(local_file_name("/"), None);
}

#[test]
fn remote_command_words() {
    let c = CliCommand::from_command_line("  ls   -la /tmp ");
    assert_eq!(c.program, "ls");
    assert_eq!(c.args, vec!["-la", "/tmp"]);
    let c = CliCommand::from_command_line("   ");
    assert_eq!(c.program, "");
    assert!(c.args.is_empty());
    let c = CliCommand::new("echo", vec!["hi"]);
    assert_eq!(c.program, "echo");
}

#[test]
fn remote_output_lines() {
    assert_eq!(tagged_line(OutputStream::Stdout, "total 0"), "[STDOUT] total 0\n");
    assert_eq!(tagged_line(OutputStream::Stderr, "oops"), "[STDERR] oops\n");
    assert_eq!(error_report("not found"), "[ERROR] not found");
    assert_eq!(status_report("exit status: 0"), "[STATUS] exit status: 0");
}
