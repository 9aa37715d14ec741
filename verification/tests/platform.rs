use hashrename::platform::linux::{
    sh_quote, xml_escape, desktop_exec, dolphin_menu, install_summary, nautilus_script, nemo_action, thunar_merge, thunar_unmerge,
    uca_action_xml, uca_file, uninstall_summary, ThunarMerge, NOTHING_INSTALLED,
};
use hashrename::platform::macos::{self, document_wflow, info_plist, LABEL};
use hashrename::platform::windows::{command_value, install_report, uninstall_report, BG_KEY, DIR_KEY};
use hashrename::platform::{names_conflict, should_retry_rename, token_hex, INTERNAL_PREFIX};

#[test]
fn sh_quote_handles_spaces_and_quotes() {
    assert_eq!(sh_quote("/opt/My App/hashrename"), "'/opt/My App/hashrename'");
    assert_eq!(sh_quote("a'b"), "'a'\\''b'");
}

#[test]
fn xml_escape_escapes_specials() {
    assert_eq!(xml_escape("a<b&c>\"d"), "a&lt;b&amp;c&gt;&quot;d");
}

#[test]
fn plist_escape_and_quote() {
    assert_eq!(
        macos::sh_quote("/Applications/HashRename.app/x"),
        "'/Applications/HashRename.app/x'"
    );
    assert_eq!(macos::xml_escape("a&b"), "a&amp;b");
}

#[test]
fn generated_plist_contains_key_fields() {
    let plist = info_plist();
    assert!(plist.contains("runWorkflowAsService"));
    assert!(plist.contains("public.folder"));
    assert!(plist.contains(LABEL));
    let wflow = document_wflow("/usr/local/bin/hashrename");
    assert!(wflow.contains("RunShellScript"));
    assert!(wflow.contains("--gui"));
    assert!(
        wflow.contains("&#39;/usr/local/bin/hashrename&#39; --gui &quot;$@&quot;")
            || wflow.contains("'/usr/local/bin/hashrename' --gui")
    );
}

#[test]
fn registry_paths_are_consistent() {
    assert!(DIR_KEY.starts_with(r"Software\Classes\Directory"));
    assert!(BG_KEY.contains("Background"));
}

#[test]
fn plist_starts_as_xml_and_names_the_label() {
    let plist = info_plist();
    assert!(plist.starts_with("<?xml version=\"1.0\" encoding=\"UTF-8\"?>"));
    assert!(plist.contains("<string>Hash 去重并重命名</string>"));
    let wflow = document_wflow("/x/a\"b");
    assert!(wflow.contains("<string>'/x/a&quot;b' --gui &quot;$@&quot;</string>"));
}

#[test]
fn desktop_files_name_the_program() {
    assert_eq!(desktop_exec("/usr/bin/hr"), "\"/usr/bin/hr\" --gui %f");
    let script = nautilus_script("/opt/My App/hr");
    assert!(script.starts_with("#!/bin/sh\n"));
    assert!(script.ends_with("exec '/opt/My App/hr' --gui \"$f\"\n"));
    let dolphin = dolphin_menu("/usr/bin/hr");
    assert!(dolphin.contains("Exec=\"/usr/bin/hr\" --gui %f\n"));
    assert!(dolphin.contains("Name=Hash 去重并重命名\n"));
    let nemo = nemo_action("/usr/bin/hr");
    assert!(nemo.starts_with("[Nemo Action]\nActive=true\n"));
    assert!(nemo.contains("Exec=\"/usr/bin/hr\" --gui %f\n"));
}

#[test]
fn uca_action_escapes_command() {
    let block = uca_action_xml("/usr/bin/hr");
    assert!(block.contains("<command>&quot;/usr/bin/hr&quot; --gui %f</command>"));
    assert!(block.contains("<unique-id>hashrename-uid-001</unique-id>"));
    let file = uca_file(&block);
    assert!(file.starts_with("<?xml"));
    assert!(file.ends_with("</action>\n</actions>\n"));
}

#[test]
fn thunar_merge_inserts_before_last_actions_end() {
    let block = "<action>X<unique-id>hashrename-uid-001</unique-id></action>\n";
    match thunar_merge("<actions>\n<action>A</action>\n</actions>\n", block) {
        ThunarMerge::Merged(m) => {
            assert_eq!(m, format!("<actions>\n<action>A</action>\n{block}</actions>\n"));
        }
        _ => panic!("expected a merge"),
    }
    assert!(matches!(thunar_merge("<actions>\n", block), ThunarMerge::Malformed));
    let present = format!("<actions>\n{block}</actions>\n");
    assert!(matches!(thunar_merge(&present, block), ThunarMerge::AlreadyPresent));
}

#[test]
fn thunar_unmerge_cuts_the_action_out() {
    let content = "<actions>\n<action>A</action>\n<action>\n<unique-id>hashrename-uid-001</unique-id>\n</action>\n</actions>\n";
    assert_eq!(
        thunar_unmerge(content),
        Some("<actions>\n<action>A</action>\n\n</actions>\n".to_string())
    );
    assert_eq!(thunar_unmerge("<actions></actions>"), None);
}

#[test]
fn install_summary_rules() {
    let all_failed = vec![Err("Nautilus: a".to_string()), Err("Thunar: b".to_string())];
    assert_eq!(
        install_summary(&all_failed),
        Err("所有文件管理器集成均安装失败:\nNautilus: a\nThunar: b".to_string())
    );
    let mixed = vec![Err("Nautilus: a".to_string()), Ok("Nemo:动作已安装".to_string())];
    assert_eq!(
        install_summary(&mixed),
        Ok(vec!["Nemo:动作已安装".to_string(), "Nautilus: a".to_string()])
    );
    assert_eq!(install_summary(&vec![]), Ok(vec![]));
    assert_eq!(uninstall_summary(vec![]), vec![NOTHING_INSTALLED.to_string()]);
}

#[test]
fn windows_command_and_reports() {
    assert_eq!(command_value("C:\\hr.exe"), "\"C:\\hr.exe\" \"%V\"");
    let r = install_report("C:\\hr.exe");
    assert_eq!(r[2], "命令: \"C:\\hr.exe\" \"%V\"");
    let u = uninstall_report();
    assert_eq!(u[0], format!("注册表项已删除: HKCU\\{DIR_KEY}"));
    assert_eq!(u[1], format!("注册表项已删除: HKCU\\{BG_KEY}"));
}

#[test]
fn names_conflict_by_case_rule() {
    assert!(names_conflict(true, "a.jpg", "a.jpg"));
    assert!(!names_conflict(true, "A.jpg", "a.jpg"));
    assert!(names_conflict(false, "A.JPG", "a.jpg"));
    assert!(!names_conflict(false, "a.jpg", "b.jpg"));
}

#[test]
fn token_is_32_hex_digits() {
    assert_eq!(token_hex(0, 0), "00000000000000000000000000000000");
    assert_eq!(token_hex(0xdeadbeef, u64::MAX), "00000000deadbeefffffffffffffffff");
    assert_eq!(token_hex(0x0123456789abcdef, 1), "0123456789abcdef0000000000000001");
}

#[test]
fn rename_retry_rules() {
    assert!(should_retry_rename(1, false));
    assert!(should_retry_rename(2, false));
    assert!(!should_retry_rename(3, false));
    assert!(!should_retry_rename(1, true));
    assert_eq!(INTERNAL_PREFIX, ".hashrename");
}
