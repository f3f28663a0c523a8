use p_rust::autostart::{desktop_entry, init_autostart, launch_agent_plist};

#[test]
fn fallback_succeeds() {
    assert!(init_autostart().is_ok());
}

#[test]
fn desktop_entry_content() {
    let expected = format!(
        "[Desktop Entry]\n\
         Type=Application\n\
         Name=Paste Clone\n\
         Exec={}\n\
         Terminal=false\n\
         X-KDE-autostart-enabled=true\n",
        "/usr/bin/p-rust"
    );
    assert_eq!(desktop_entry("/usr/bin/p-rust"), expected);
}

#[test]
fn launch_agent_content() {
    let expected = format!(
        "<?xml version=\"1.0\" encoding=\"UTF-8\"?>\n\
        <!DOCTYPE plist PUBLIC \"-//Apple//DTD PLIST 1.0//EN\" \"http://www.apple.com/DTDs/PropertyList-1.0.dtd\">\n\
        <plist version=\"1.0\">\n\
        <dict>\n\
            <key>Label</key>\n\
            <string>com.p-rust.app</string>\n\
            <key>ProgramArguments</key>\n\
            <array>\n\
                <string>{}</string>\n\
            </array>\n\
            <key>RunAtLoad</key>\n\
            <true/>\n\
        </dict>\n\
        </plist>\n",
        "/Applications/P.app/Contents/MacOS/p-rust"
    );
    assert_eq!(launch_agent_plist("/Applications/P.app/Contents/MacOS/p-rust"), expected);
}
