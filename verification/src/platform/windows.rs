//! Integration with the Windows Explorer: a folder context-menu entry under
//! the current user's registry classes. This module holds the keys and
//! composes the values and report lines; the caller writes the registry.

use vstd::prelude::*;
use crate::text::push_str;

verus! {

pub const MENU_LABEL: &'static str = "Hash 去重并重命名";
/// The entry on folders.
pub const DIR_KEY: &'static str = "Software\\Classes\\Directory\\shell\\HashRename";
/// The entry on a folder's background.
pub const BG_KEY: &'static str = "Software\\Classes\\Directory\\Background\\shell\\HashRename";

pub open spec fn command_of(exe: Seq<char>) -> Seq<char> {
    "\""@ + exe + "\" \"%V\""@
}

/// The command the entry runs: the program on the folder.
pub fn command_value(exe: &str) -> (r: String)
    ensures
        r@ == command_of(exe@),
{
    let mut s = String::new();
    push_str(&mut s, "\"");
    push_str(&mut s, exe);
    push_str(&mut s, "\" \"%V\"");
    s
}

/// The key holding the command of the entry under `base`.
pub fn command_key(base: &str) -> (r: String)
    ensures
        r@ == base@ + "\\command"@,
{
    let mut s = String::new();
    push_str(&mut s, base);
    push_str(&mut s, "\\command");
    s
}

pub const INSTALLED: &'static str = "Explorer 文件夹右键菜单已安装(当前用户)";
pub const INSTALL_HINT: &'static str = "右键任意文件夹 → Hash 去重并重命名";

/// The report of an installation for the program shown as `exe`.
pub fn install_report(exe: &str) -> (r: Vec<String>)
    ensures
        r@.len() == 3,
        r@[0]@ == INSTALLED@,
        r@[1]@ == INSTALL_HINT@,
        r@[2]@ == "命令: "@ + command_of(exe@),
{
    let mut r: Vec<String> = Vec::new();
    r.push(INSTALLED.to_string());
    r.push(INSTALL_HINT.to_string());
    let mut l = String::new();
    push_str(&mut l, "命令: ");
    let c = command_value(exe);
    push_str(&mut l, c.as_str());
    r.push(l);
    r
}

/// The report of a removal: one line per key deleted.
pub fn uninstall_report() -> (r: Vec<String>)
    ensures
        r@.len() == 2,
        r@[0]@ == "注册表项已删除: HKCU\\"@ + DIR_KEY@,
        r@[1]@ == "注册表项已删除: HKCU\\"@ + BG_KEY@,
{
    let mut r: Vec<String> = Vec::new();
    let mut a = String::new();
    push_str(&mut a, "注册表项已删除: HKCU\\");
    push_str(&mut a, DIR_KEY);
    r.push(a);
    let mut b = String::new();
    push_str(&mut b, "注册表项已删除: HKCU\\");
    push_str(&mut b, BG_KEY);
    r.push(b);
    r
}

/// The message of a failed registry write: `what` failed on `key`.
pub fn registry_error(what: &str, key: &str, detail: &str) -> (r: String)
    ensures
        r@ == what@ + "("@ + key@ + "): "@ + detail@,
{
    let mut s = String::new();
    push_str(&mut s, what);
    push_str(&mut s, "(");
    push_str(&mut s, key);
    push_str(&mut s, "): ");
    push_str(&mut s, detail);
    s
}

} // verus!
