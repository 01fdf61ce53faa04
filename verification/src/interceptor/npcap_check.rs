//! Whether packets can be captured on this machine.

use crate::scan;
use crate::text;
use vstd::prelude::*;

verus! {

/// Where the capture driver is looked for.
pub fn driver_paths() -> (res: Vec<String>)
    ensures
        crate::types::texts(res@) == seq![
            "C:\\Windows\\System32\\wpcap.dll"@,
            "C:\\Windows\\SysWOW64\\wpcap.dll"@,
        ],
{
    let mut v: Vec<String> = Vec::new();
    v.push("C:\\Windows\\System32\\wpcap.dll".to_owned());
    v.push("C:\\Windows\\SysWOW64\\wpcap.dll".to_owned());
    proof {
        assert(crate::types::texts(v@) =~= seq![
            "C:\\Windows\\System32\\wpcap.dll"@,
            "C:\\Windows\\SysWOW64\\wpcap.dll"@,
        ]);
    }
    v
}

/// Whether the driver is installed, where `present` says of each place whether the file is there.
pub fn driver_installed(present: &Vec<bool>) -> (res: bool)
    ensures
        res == present@.contains(true),
{
    let mut i: usize = 0;
    while i < present.len()
        invariant
            i <= present@.len(),
            forall|k: int| 0 <= k < i ==> !present@[k],
        decreases present@.len() - i,
    {
        if present[i] {
            assert(present@[i as int]);
            return true;
        }
        i = i + 1;
    }
    false
}

/// Without packet capture no driver counts as installed.
pub fn check_npcap_installed() -> (res: bool)
    ensures
        !res,
{
    false
}

/// What is said where packet capture is not built in.
pub open spec fn capture_missing() -> Seq<char> {
    "Packet capture requires the 'capture' feature.\nRun with: cargo run --features capture -- intercept\n\nFor now, you can use the example command to test the UI:\ncargo run -- example"@
}

/// Without packet capture, the reason why there is none.
pub fn ensure_npcap_or_error() -> (res: Result<(), String>)
    ensures
        res matches Err(message) && message@ == capture_missing(),
{
    Err(
        "Packet capture requires the 'capture' feature.\nRun with: cargo run --features capture -- intercept\n\nFor now, you can use the example command to test the UI:\ncargo run -- example".to_owned(),
    )
}

/// What is done where the driver is missing.
#[derive(Debug, Clone, Copy, PartialEq, Eq, Structural)]
pub enum DriverAction {
    /// Fetch the installer and start it.
    Install,
    /// Say how to install the driver by hand.
    Explain,
}

/// The answer, in lower case and without white space around it, that agrees to the installation.
pub open spec fn agrees(answer_lower: Seq<char>) -> bool {
    answer_lower == "y"@
}

/// What follows the answer to the question whether to install the driver.
pub fn driver_answer(answer_lower: &str) -> (res: DriverAction)
    ensures
        res == if agrees(answer_lower@) {
            DriverAction::Install
        } else {
            DriverAction::Explain
        },
{
    if text::eq(answer_lower, "y") {
        DriverAction::Install
    } else {
        DriverAction::Explain
    }
}

/// What follows the line that was typed as the answer: `y`, in either case, installs.
pub fn driver_action(line: &str) -> (res: DriverAction)
    ensures
        res == if agrees(scan::unicode_lower(scan::trim_of(line@))) {
            DriverAction::Install
        } else {
            DriverAction::Explain
        },
{
    let trimmed = text::string_of(&scan::trim(&text::chars_of(line)));
    let lower = scan::to_lowercase(trimmed.as_str());
    driver_answer(lower.as_str())
}

/// What is said once the driver was offered.
pub fn driver_message(action: DriverAction) -> (res: String)
    ensures
        res@ == match action {
            DriverAction::Install => "\nPlease complete the Npcap installation and restart your computer.\nThen run: cargo run --features capture -- intercept"@,
            DriverAction::Explain => "\nTo install Npcap manually:\n1. Download from: https://nmap.org/npcap/\n2. During installation, enable 'WinPcap API-compatible Mode'\n3. Restart your computer after installation\n\nFor now, you can use the example command to test the UI:\ncargo run -- example"@,
        },
{
    match action {
        DriverAction::Install => "\nPlease complete the Npcap installation and restart your computer.\nThen run: cargo run --features capture -- intercept".to_owned(),
        DriverAction::Explain => "\nTo install Npcap manually:\n1. Download from: https://nmap.org/npcap/\n2. During installation, enable 'WinPcap API-compatible Mode'\n3. Restart your computer after installation\n\nFor now, you can use the example command to test the UI:\ncargo run -- example".to_owned(),
    }
}

/// Only the letter `y` alone agrees.
pub proof fn law_only_y_agrees(answer: Seq<char>)
    ensures
        agrees(answer) <==> answer.len() == 1 && answer[0] == 'y',
{
    reveal_strlit("y");
    if answer.len() == 1 && answer[0] == 'y' {
        assert(answer =~= "y"@);
    }
}

} // verus!
