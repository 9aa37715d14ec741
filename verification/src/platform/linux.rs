//! Integration with Linux file managers: a Nautilus script, a Dolphin
//! service menu, a Nemo action and a Thunar custom action. This module
//! composes their contents and merges the Thunar action into an existing
//! `uca.xml`; the caller writes the files.

use vstd::prelude::*;
use std::path::PathBuf;
use crate::paths::{join_name, joined};
use crate::text::{chars_of, push_str, push_all, string_from_chars, slice_chars, find_first, find_last, occurs_at};
pub use crate::platform::quoting::{sh_quote, xml_escape, sh_quoted, xml_escaped};

verus! {

pub const LABEL: &'static str = "Hash 去重并重命名";
pub const DESCRIPTION: &'static str = "按内容哈希去重并按序号重命名(仅处理当前文件夹)";
pub const UCA_UNIQUE_ID: &'static str = "hashrename-uid-001";

/// Where each integration lives, relative to the home directory.
pub const NAUTILUS_SCRIPT: &'static str = ".local/share/nautilus/scripts/HashRename";
pub const DOLPHIN_MENU: &'static str = ".local/share/kio/servicemenus/hashrename.desktop";
pub const NEMO_ACTION: &'static str = ".local/share/nemo/actions/hashrename.nemo_action";
pub const THUNAR_UCA: &'static str = ".config/Thunar/uca.xml";

pub const NAUTILUS_INSTALLED: &'static str = "Nautilus:脚本已安装(右键 → Scripts → HashRename)";
pub const DOLPHIN_INSTALLED: &'static str = "Dolphin(KDE):服务菜单已安装";
pub const NEMO_INSTALLED: &'static str = "Nemo:动作已安装";
pub const THUNAR_PRESENT: &'static str = "Thunar:自定义动作已存在";
pub const THUNAR_INSTALLED: &'static str = "Thunar:自定义动作已安装";
pub const NAUTILUS_REMOVED: &'static str = "Nautilus:脚本已移除";
pub const DOLPHIN_REMOVED: &'static str = "Dolphin:服务菜单已移除";
pub const NEMO_REMOVED: &'static str = "Nemo:动作已移除";
pub const THUNAR_REMOVED: &'static str = "Thunar:自定义动作已移除";
pub const NOTHING_INSTALLED: &'static str = "未发现已安装的文件管理器集成";

pub fn nautilus_script_path(home: &PathBuf) -> (r: PathBuf)
    ensures
        r == joined(*home, NAUTILUS_SCRIPT@),
{
    join_name(home, NAUTILUS_SCRIPT)
}

pub fn dolphin_menu_path(home: &PathBuf) -> (r: PathBuf)
    ensures
        r == joined(*home, DOLPHIN_MENU@),
{
    join_name(home, DOLPHIN_MENU)
}

pub fn nemo_action_path(home: &PathBuf) -> (r: PathBuf)
    ensures
        r == joined(*home, NEMO_ACTION@),
{
    join_name(home, NEMO_ACTION)
}

pub fn uca_path(home: &PathBuf) -> (r: PathBuf)
    ensures
        r == joined(*home, THUNAR_UCA@),
{
    join_name(home, THUNAR_UCA)
}

/// The command line that opens the program's window on the selected folder.
pub open spec fn desktop_exec_of(exe: Seq<char>) -> Seq<char> {
    "\""@ + exe + "\" --gui %f"@
}

pub fn desktop_exec(exe: &str) -> (r: String)
    ensures
        r@ == desktop_exec_of(exe@),
{
    let mut s = String::new();
    push_str(&mut s, "\"");
    push_str(&mut s, exe);
    push_str(&mut s, "\" --gui %f");
    s
}

pub open spec fn nautilus_script_of(exe: Seq<char>) -> Seq<char> {
    "#!/bin/sh\n# 由 HashRename 生成 (--install-context-menu)\nf=$(printf '%s' \"$NAUTILUS_SCRIPT_SELECTED_FILE_PATHS\" | head -n 1)\n[ -n \"$f\" ] && [ -d \"$f\" ] && exec "@
        + sh_quoted(exe) + " --gui \"$f\"\n"@
}

/// The Nautilus script for the program at `exe`.
pub fn nautilus_script(exe: &str) -> (r: String)
    ensures
        r@ == nautilus_script_of(exe@),
{
    let mut s = String::new();
    push_str(
        &mut s,
        "#!/bin/sh\n# 由 HashRename 生成 (--install-context-menu)\nf=$(printf '%s' \"$NAUTILUS_SCRIPT_SELECTED_FILE_PATHS\" | head -n 1)\n[ -n \"$f\" ] && [ -d \"$f\" ] && exec ",
    );
    let q = sh_quote(exe);
    push_str(&mut s, q.as_str());
    push_str(&mut s, " --gui \"$f\"\n");
    s
}

pub open spec fn dolphin_menu_of(exe: Seq<char>) -> Seq<char> {
    "[Desktop Entry]\nType=Service\nX-KDE-ServiceTypes=KonqPopupMenu/Plugin\nMimeType=inode/directory\nActions=hashrename;\n\n[Desktop Action hashrename]\nName="@
        + LABEL@ + "\nName[en]=Hash dedupe & rename\nIcon=text-x-generic\nExec="@ + desktop_exec_of(exe) + "\n"@
}

/// The Dolphin service menu for the program at `exe`.
pub fn dolphin_menu(exe: &str) -> (r: String)
    ensures
        r@ == dolphin_menu_of(exe@),
{
    let mut s = String::new();
    push_str(
        &mut s,
        "[Desktop Entry]\nType=Service\nX-KDE-ServiceTypes=KonqPopupMenu/Plugin\nMimeType=inode/directory\nActions=hashrename;\n\n[Desktop Action hashrename]\nName=",
    );
    push_str(&mut s, LABEL);
    push_str(&mut s, "\nName[en]=Hash dedupe & rename\nIcon=text-x-generic\nExec=");
    let e = desktop_exec(exe);
    push_str(&mut s, e.as_str());
    push_str(&mut s, "\n");
    s
}

pub open spec fn nemo_action_of(exe: Seq<char>) -> Seq<char> {
    "[Nemo Action]\nActive=true\nName="@ + LABEL@ + "\nComment="@ + DESCRIPTION@ + "\nExec="@ + desktop_exec_of(exe)
        + "\nIcon-Name=text-x-generic\nMimeType=inode/directory\nSelection=s\n"@
}

/// The Nemo action for the program at `exe`.
pub fn nemo_action(exe: &str) -> (r: String)
    ensures
        r@ == nemo_action_of(exe@),
{
    let mut s = String::new();
    push_str(&mut s, "[Nemo Action]\nActive=true\nName=");
    push_str(&mut s, LABEL);
    push_str(&mut s, "\nComment=");
    push_str(&mut s, DESCRIPTION);
    push_str(&mut s, "\nExec=");
    let e = desktop_exec(exe);
    push_str(&mut s, e.as_str());
    push_str(&mut s, "\nIcon-Name=text-x-generic\nMimeType=inode/directory\nSelection=s\n");
    s
}

pub open spec fn uca_action_of(exe: Seq<char>) -> Seq<char> {
    "<action>\n<icon>text-x-generic</icon>\n<name>"@ + LABEL@ + "</name>\n<unique-id>"@ + UCA_UNIQUE_ID@
        + "</unique-id>\n<command>"@ + xml_escaped(desktop_exec_of(exe)) + "</command>\n<description>"@ + DESCRIPTION@
        + "</description>\n<patterns>*</patterns>\n<directories/>\n</action>\n"@
}

/// The Thunar custom action (an `<action>` element) for the program at `exe`.
pub fn uca_action_xml(exe: &str) -> (r: String)
    ensures
        r@ == uca_action_of(exe@),
{
    let mut s = String::new();
    push_str(&mut s, "<action>\n<icon>text-x-generic</icon>\n<name>");
    push_str(&mut s, LABEL);
    push_str(&mut s, "</name>\n<unique-id>");
    push_str(&mut s, UCA_UNIQUE_ID);
    push_str(&mut s, "</unique-id>\n<command>");
    let e = desktop_exec(exe);
    let x = xml_escape(e.as_str());
    push_str(&mut s, x.as_str());
    push_str(&mut s, "</command>\n<description>");
    push_str(&mut s, DESCRIPTION);
    push_str(&mut s, "</description>\n<patterns>*</patterns>\n<directories/>\n</action>\n");
    s
}

/// A new `uca.xml` holding only `block`.
pub open spec fn uca_file_of(block: Seq<char>) -> Seq<char> {
    "<?xml version=\"1.0\" encoding=\"UTF-8\"?>\n<actions>\n"@ + block + "</actions>\n"@
}

pub fn uca_file(block: &str) -> (r: String)
    ensures
        r@ == uca_file_of(block@),
{
    let mut s = String::new();
    push_str(&mut s, "<?xml version=\"1.0\" encoding=\"UTF-8\"?>\n<actions>\n");
    push_str(&mut s, block);
    push_str(&mut s, "</actions>\n");
    s
}

/// What marks the program's action in a `uca.xml`.
pub open spec fn uca_marker() -> Seq<char> {
    "<unique-id>"@ + UCA_UNIQUE_ID@
}

fn marker_chars() -> (r: Vec<char>)
    ensures
        r@ == uca_marker(),
{
    let mut m = String::new();
    push_str(&mut m, "<unique-id>");
    push_str(&mut m, UCA_UNIQUE_ID);
    chars_of(m.as_str())
}

/// What merging the action into an existing `uca.xml` gives.
pub enum ThunarMerge {
    /// The action is there already: nothing to write.
    AlreadyPresent,
    /// The file has no `</actions>`: it is left alone.
    Malformed,
    /// The new content, the action inserted before the last `</actions>`.
    Merged(String),
}

/// Merges the action `block` into the `uca.xml` content `content`.
pub fn thunar_merge(content: &str, block: &str) -> (r: ThunarMerge)
    ensures
        r is AlreadyPresent <==> exists|i: int| occurs_at(content@, uca_marker(), i),
        r is Malformed <==> (!(exists|i: int| occurs_at(content@, uca_marker(), i))
            && forall|j: int| !occurs_at(content@, "</actions>"@, j)),
        r matches ThunarMerge::Merged(m) ==> exists|pos: int| {
            &&& occurs_at(content@, "</actions>"@, pos)
            &&& forall|j: int| pos < j ==> !occurs_at(content@, "</actions>"@, j)
            &&& m@ == content@.subrange(0, pos) + block@ + content@.subrange(pos, content@.len() as int)
        },
{
    let cs = chars_of(content);
    let marker = marker_chars();
    match find_first(&cs, &marker) {
        Some(_) => ThunarMerge::AlreadyPresent,
        None => {
            let mut e = String::new();
            push_str(&mut e, "</actions>");
            let end_tag = chars_of(e.as_str());
            match find_last(&cs, &end_tag) {
                None => ThunarMerge::Malformed,
                Some(pos) => {
                    let head = slice_chars(&cs, 0, pos);
                    let tail = slice_chars(&cs, pos, cs.len());
                    let mut m = string_from_chars(&head);
                    push_str(&mut m, block);
                    push_all(&mut m, &tail);
                    ThunarMerge::Merged(m)
                },
            }
        },
    }
}

/// The `uca.xml` content without the program's action: the `<action>`
/// element around the first marker is cut out. `None` when there is no
/// such element.
pub fn thunar_unmerge(content: &str) -> (r: Option<String>)
    ensures
        r matches Some(m) ==> exists|mk: int, start: int, close: int| {
            &&& occurs_at(content@, uca_marker(), mk)
            &&& forall|j: int| 0 <= j < mk ==> !occurs_at(content@, uca_marker(), j)
            &&& occurs_at(content@.subrange(0, mk), "<action>"@, start)
            &&& forall|j: int| start < j ==> !occurs_at(content@.subrange(0, mk), "<action>"@, j)
            &&& occurs_at(content@.subrange(mk, content@.len() as int), "</action>"@, close)
            &&& forall|j: int| 0 <= j < close ==> !occurs_at(content@.subrange(mk, content@.len() as int), "</action>"@, j)
            &&& m@ == content@.subrange(0, start) + content@.subrange(mk + close + 9, content@.len() as int)
        },
        r is None ==> {
            ||| forall|j: int| !occurs_at(content@, uca_marker(), j)
            ||| exists|mk: int| {
                &&& occurs_at(content@, uca_marker(), mk)
                &&& forall|j: int| 0 <= j < mk ==> !occurs_at(content@, uca_marker(), j)
                &&& {
                    ||| forall|j: int| !occurs_at(content@.subrange(0, mk), "<action>"@, j)
                    ||| forall|j: int| !occurs_at(content@.subrange(mk, content@.len() as int), "</action>"@, j)
                }
            }
        },
{
    let cs = chars_of(content);
    let marker = marker_chars();
    let mk = match find_first(&cs, &marker) {
        None => {
            return None;
        },
        Some(p) => p,
    };
    let head = slice_chars(&cs, 0, mk);
    let rest = slice_chars(&cs, mk, cs.len());
    let mut o = String::new();
    push_str(&mut o, "<action>");
    let open_tag = chars_of(o.as_str());
    let mut c = String::new();
    push_str(&mut c, "</action>");
    let close_tag = chars_of(c.as_str());
    assert(close_tag@.len() == 9) by {
        reveal_strlit("</action>");
    }
    let start = match find_last(&head, &open_tag) {
        None => {
            return None;
        },
        Some(s) => s,
    };
    let close = match find_first(&rest, &close_tag) {
        None => {
            return None;
        },
        Some(k) => k,
    };
    let end = mk + close + close_tag.len();
    let before = slice_chars(&cs, 0, start);
    let after = slice_chars(&cs, end, cs.len());
    let mut m = string_from_chars(&before);
    push_all(&mut m, &after);
    Some(m)
}

/// The line that reports a file manager whose integration failed.
pub open spec fn installer_error_of(manager: Seq<char>, detail: Seq<char>) -> Seq<char> {
    manager + ": "@ + detail
}

pub fn installer_error(manager: &str, detail: &str) -> (r: String)
    ensures
        r@ == installer_error_of(manager@, detail@),
{
    let mut s = String::new();
    push_str(&mut s, manager);
    push_str(&mut s, ": ");
    push_str(&mut s, detail);
    s
}

pub open spec fn thunar_malformed_of(shown: Seq<char>) -> Seq<char> {
    "Thunar 配置文件 "@ + shown + " 格式异常(缺少 </actions>),已跳过"@
}

pub fn thunar_malformed_message(shown: &str) -> (r: String)
    ensures
        r@ == thunar_malformed_of(shown@),
{
    let mut s = String::new();
    push_str(&mut s, "Thunar 配置文件 ");
    push_str(&mut s, shown);
    push_str(&mut s, " 格式异常(缺少 </actions>),已跳过");
    s
}

/// The report lines of the installers that succeeded, in order.
pub open spec fn ok_lines(rs: Seq<Result<String, String>>) -> Seq<Seq<char>>
    decreases rs.len(),
{
    if rs.len() == 0 {
        Seq::empty()
    } else {
        match rs.last() {
            Ok(l) => ok_lines(rs.drop_last()).push(l@),
            Err(_) => ok_lines(rs.drop_last()),
        }
    }
}

/// The error lines of the installers that failed, in order.
pub open spec fn err_lines(rs: Seq<Result<String, String>>) -> Seq<Seq<char>>
    decreases rs.len(),
{
    if rs.len() == 0 {
        Seq::empty()
    } else {
        match rs.last() {
            Ok(_) => err_lines(rs.drop_last()),
            Err(l) => err_lines(rs.drop_last()).push(l@),
        }
    }
}

/// Lines joined with newlines.
pub open spec fn join_lines(ls: Seq<Seq<char>>) -> Seq<char>
    decreases ls.len(),
{
    if ls.len() == 0 {
        Seq::empty()
    } else if ls.len() == 1 {
        ls[0]
    } else {
        join_lines(ls.drop_last()) + "\n"@ + ls.last()
    }
}

pub open spec fn all_failed_of(errors: Seq<Seq<char>>) -> Seq<char> {
    "所有文件管理器集成均安装失败:\n"@ + join_lines(errors)
}

/// The outcome of installing every integration, from each installer's
/// report line (`Ok`) or error line (`Err`): an error when none succeeded
/// and some failed, otherwise the report lines followed by the error lines.
pub fn install_summary(results: &Vec<Result<String, String>>) -> (r: Result<Vec<String>, String>)
    ensures
        (ok_lines(results@).len() == 0 && err_lines(results@).len() > 0) <==> r is Err,
        r matches Err(e) ==> e@ == all_failed_of(err_lines(results@)),
        r matches Ok(lines) ==> lines@.map_values(|l: String| l@) == ok_lines(results@) + err_lines(results@),
{
    let mut oks: Vec<String> = Vec::new();
    let mut errs: Vec<String> = Vec::new();
    let mut i: usize = 0;
    while i < results.len()
        invariant
            i <= results@.len(),
            oks@.map_values(|l: String| l@) == ok_lines(results@.take(i as int)),
            errs@.map_values(|l: String| l@) == err_lines(results@.take(i as int)),
        decreases results@.len() - i,
    {
        assert(results@.take(i + 1).drop_last() =~= results@.take(i as int));
        let ghost o0 = oks@;
        let ghost e0 = errs@;
        match &results[i] {
            Ok(l) => {
                oks.push(l.clone());
                assert(oks@.map_values(|l: String| l@) =~= o0.map_values(|l: String| l@).push(l@));
            },
            Err(l) => {
                errs.push(l.clone());
                assert(errs@.map_values(|l: String| l@) =~= e0.map_values(|l: String| l@).push(l@));
            },
        }
        i += 1;
    }
    assert(results@.take(results@.len() as int) =~= results@);
    if oks.len() == 0 && errs.len() > 0 {
        let mut m = String::new();
        push_str(&mut m, "所有文件管理器集成均安装失败:\n");
        let mut k: usize = 0;
        while k < errs.len()
            invariant
                k <= errs@.len(),
                m@ == "所有文件管理器集成均安装失败:\n"@ + join_lines(errs@.map_values(|l: String| l@).take(k as int)),
            decreases errs@.len() - k,
        {
            let ghost ls = errs@.map_values(|l: String| l@);
            assert(ls.take(k + 1).drop_last() =~= ls.take(k as int));
            if k > 0 {
                push_str(&mut m, "\n");
            }
            push_str(&mut m, errs[k].as_str());
            if k == 0 {
                assert(ls.take(1) =~= seq![errs@[0]@]);
            }
            assert(m@ =~= "所有文件管理器集成均安装失败:\n"@ + join_lines(ls.take(k + 1)));
            k += 1;
        }
        assert(errs@.map_values(|l: String| l@).take(errs@.len() as int) =~= errs@.map_values(|l: String| l@));
        Err(m)
    } else {
        let ghost o0 = oks@;
        oks.append(&mut errs);
        assert(oks@.map_values(|l: String| l@) =~= o0.map_values(|l: String| l@) + err_lines(results@));
        Ok(oks)
    }
}

/// The report of removing the integrations: the lines given, or a notice
/// that nothing was installed.
pub fn uninstall_summary(lines: Vec<String>) -> (r: Vec<String>)
    ensures
        lines@.len() > 0 ==> r@ == lines@,
        lines@.len() == 0 ==> r@.len() == 1 && r@[0]@ == NOTHING_INSTALLED@,
{
    if lines.len() == 0 {
        let mut r: Vec<String> = Vec::new();
        r.push(NOTHING_INSTALLED.to_string());
        r
    } else {
        lines
    }
}

} // verus!
