//! Start at login: the entries that register the program with the desktop session.

use vstd::prelude::*;

verus! {

#[verifier::external_type_specification]
#[verifier::external_body]
pub struct ExIoError(std::io::Error);

/// Registering at login where the platform has no mechanism for it: nothing
/// to do, and it succeeds.
pub fn init_autostart() -> (r: Result<(), std::io::Error>)
    ensures
        r is Ok,
{
    Ok(())
}

/// The KDE/freedesktop autostart entry (`p-rust.desktop`) that runs `exe_path`.
pub fn desktop_entry(exe_path: &str) -> (content: String)
    ensures
        content@ == "[Desktop Entry]\nType=Application\nName=Paste Clone\nExec="@ + exe_path@
            + "\nTerminal=false\nX-KDE-autostart-enabled=true\n"@,
{
    let mut content = String::from_str("[Desktop Entry]\nType=Application\nName=Paste Clone\nExec=");
    content.append(exe_path);
    content.append("\nTerminal=false\nX-KDE-autostart-enabled=true\n");
    content
}

/// The macOS launch agent (`com.p-rust.app.plist`) that runs `exe_path` at load.
pub fn launch_agent_plist(exe_path: &str) -> (content: String)
    ensures
        content@ == "<?xml version=\"1.0\" encoding=\"UTF-8\"?>\n<!DOCTYPE plist PUBLIC \"-//Apple//DTD PLIST 1.0//EN\" \"http://www.apple.com/DTDs/PropertyList-1.0.dtd\">\n<plist version=\"1.0\">\n<dict>\n<key>Label</key>\n<string>com.p-rust.app</string>\n<key>ProgramArguments</key>\n<array>\n<string>"@
            + exe_path@ + "</string>\n</array>\n<key>RunAtLoad</key>\n<true/>\n</dict>\n</plist>\n"@,
{
    let mut content = String::from_str(
        "<?xml version=\"1.0\" encoding=\"UTF-8\"?>\n<!DOCTYPE plist PUBLIC \"-//Apple//DTD PLIST 1.0//EN\" \"http://www.apple.com/DTDs/PropertyList-1.0.dtd\">\n<plist version=\"1.0\">\n<dict>\n<key>Label</key>\n<string>com.p-rust.app</string>\n<key>ProgramArguments</key>\n<array>\n<string>",
    );
    content.append(exe_path);
    content.append("</string>\n</array>\n<key>RunAtLoad</key>\n<true/>\n</dict>\n</plist>\n");
    content
}

} // verus!
