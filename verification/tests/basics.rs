use std::borrow::Cow;

use adb_rs::commands::ad_hoc::Mock;
use adb_rs::commands::switch_shell::SwitchShell;
use adb_rs::commands::{Cmd, CmdExt, Derives, ShellCmdBuilder, ToShell, TransPort};
use adb_rs::shell::WCmd;

#[test]
fn it_works() {
    let result = 2 + 2;
    assert_eq!(result, 4);
}

#[test]
fn fixed_command_texts() {
    assert_eq!(Derives.cmd(), "host:devices");
    assert_eq!(ToShell.cmd(), "shell:");
    assert_eq!(Mock.cmd(), "host:mock");
    assert_eq!(SwitchShell::Shell.cmd(), "shell:");
    assert_eq!(SwitchShell::Exit.cmd(), "exit");
}

#[test]
fn transport_texts() {
    assert_eq!(TransPort::Serial("emulator-5554".to_string()).cmd(), "host:transport:emulator-5554");
    assert_eq!(TransPort::Usb.cmd(), "host:transport-usb");
    assert_eq!(TransPort::Local.cmd(), "host:transport-local");
    assert_eq!(TransPort::Any.cmd(), "host:transport-any");
}

#[test]
fn shell_command_without_arguments() {
    let cmd = ShellCmdBuilder::with_no_resp(Cow::Borrowed("")).build();
    assert_eq!(cmd.cmd(), "shell: ");
    let cmd = ShellCmdBuilder::with_resp(Cow::Borrowed("ls")).build();
    assert_eq!(cmd.cmd(), "shell:ls ");
}

#[test]
fn shell_command_one_argument_is_not_quoted() {
    let cmd = ShellCmdBuilder::with_no_resp(Cow::Borrowed("input")).arg(Cow::Borrowed("keyevent")).build();
    assert_eq!(cmd.cmd(), "shell:input keyevent");
}

#[test]
fn shell_command_arguments_are_quoted_words() {
    let cmd = ShellCmdBuilder::with_no_resp(Cow::Borrowed("input"))
        .arg(Cow::Borrowed("keyevent"))
        .arg(Cow::Owned("3".to_string()))
        .build();
    assert_eq!(cmd.cmd(), "shell:input \"keyevent\" \"3\"");
    let cmd = ShellCmdBuilder::with_resp(Cow::Borrowed("echo"))
        .arg(Cow::Borrowed("a"))
        .arg(Cow::Borrowed("b"))
        .arg(Cow::Borrowed("c"))
        .build();
    assert_eq!(cmd.cmd(), "shell:echo \"a\" \"b\" \"c\"");
}

#[test]
fn shell_session_text_drops_service_prefix() {
    let make = || {
        ShellCmdBuilder::with_no_resp(Cow::Borrowed("input"))
            .arg(Cow::Borrowed("keyevent"))
            .arg(Cow::Borrowed("3"))
            .build()
    };
    let full = make().cmd();
    let written = WCmd::new(make()).cmd();
    assert_eq!(written, "input \"keyevent\" \"3\"");
    assert_eq!(full, format!("shell:{}", written));
}

#[test]
fn wrappers_give_back_the_command() {
    assert_eq!(Derives.as_imm().into_inner().cmd(), "host:devices");
    assert_eq!(TransPort::Usb.as_interact().into_inner().cmd(), "host:transport-usb");
    assert_eq!(SwitchShell::Exit.as_live().into_inner().cmd(), "exit");
}
