//! Integration with the macOS Finder: an Automator Quick Action (a
//! `.workflow` bundle under `~/Library/Services`). This module composes the
//! bundle's two files and the report lines; the caller writes them.

use vstd::prelude::*;
use std::path::PathBuf;
use crate::paths::{join_name, joined};
use crate::text::{push_str};
pub use crate::platform::quoting::{sh_quote, xml_escape, sh_quoted, xml_escaped};

verus! {

pub const LABEL: &'static str = "Hash 去重并重命名";
pub const WORKFLOW_DIR_NAME: &'static str = "HashRename.workflow";
pub const SERVICES_DIR: &'static str = "Library/Services";

/// `Info.plist` up to the menu label.
pub const PLIST_HEAD: &'static str = r#"<?xml version="1.0" encoding="UTF-8"?>
<!DOCTYPE plist PUBLIC "-//Apple//DTD PLIST 1.0//EN" "http://www.apple.com/DTDs/PropertyList-1.0.dtd">
<plist version="1.0">
<dict>
	<key>NSServices</key>
	<array>
		<dict>
			<key>NSBackgroundColorName</key>
			<string>background</string>
			<key>NSIconName</key>
			<string>NSActionTemplate</string>
			<key>NSMenuItem</key>
			<dict>
				<key>default</key>
				<string>"#;

/// `Info.plist` after the menu label.
pub const PLIST_TAIL: &'static str = r#"</string>
			</dict>
			<key>NSMessage</key>
			<string>runWorkflowAsService</string>
			<key>NSRequiredContext</key>
			<dict>
				<key>NSApplicationIdentifier</key>
				<string>com.apple.finder</string>
			</dict>
			<key>NSSendFileTypes</key>
			<array>
				<string>public.folder</string>
			</array>
		</dict>
	</array>
</dict>
</plist>
"#;

/// `document.wflow` up to the shell command.
pub const WFLOW_HEAD: &'static str = r#"<?xml version="1.0" encoding="UTF-8"?>
<!DOCTYPE plist PUBLIC "-//Apple//DTD PLIST 1.0//EN" "http://www.apple.com/DTDs/PropertyList-1.0.dtd">
<plist version="1.0">
<dict>
	<key>AMApplicationBuild</key>
	<string>523</string>
	<key>AMApplicationVersion</key>
	<string>2.1</string>
	<key>AMDocumentVersion</key>
	<string>2</string>
	<key>actions</key>
	<array>
		<dict>
			<key>action</key>
			<dict>
				<key>AMAccepts</key>
				<dict>
					<key>Container</key>
					<string>List</string>
					<key>Optional</key>
					<true/>
					<key>Types</key>
					<array>
						<string>com.apple.cocoa.string</string>
					</array>
				</dict>
				<key>AMActionVersion</key>
				<string>2.0.3</string>
				<key>AMApplication</key>
				<array>
					<string>Automator</string>
				</array>
				<key>AMParameterProperties</key>
				<dict>
					<key>COMMAND_STRING</key>
					<dict/>
					<key>CheckedForUserDefaultShell</key>
					<dict/>
					<key>inputMethod</key>
					<dict/>
					<key>shell</key>
					<dict/>
					<key>source</key>
					<dict/>
				</dict>
				<key>AMProvides</key>
				<dict>
					<key>Container</key>
					<string>List</string>
					<key>Types</key>
					<array>
						<string>com.apple.cocoa.string</string>
					</array>
				</dict>
				<key>ActionBundlePath</key>
				<string>/System/Library/Automator/Run Shell Script.action</string>
				<key>ActionName</key>
				<string>Run Shell Script</string>
				<key>ActionParameters</key>
				<dict>
					<key>COMMAND_STRING</key>
					<string>"#;

/// `document.wflow` after the shell command.
pub const WFLOW_TAIL: &'static str = r#"</string>
					<key>CheckedForUserDefaultShell</key>
					<true/>
					<key>inputMethod</key>
					<integer>1</integer>
					<key>shell</key>
					<string>/bin/zsh</string>
					<key>source</key>
					<string></string>
				</dict>
				<key>BundleIdentifier</key>
				<string>com.apple.RunShellScript</string>
				<key>CFBundleVersion</key>
				<string>2.0.3</string>
				<key>CanShowSelectedItemsWhenRun</key>
				<false/>
				<key>CanShowWhenRun</key>
				<true/>
				<key>Category</key>
				<array>
					<string>AMCategoryUtilities</string>
				</array>
				<key>Class Name</key>
				<string>RunShellScriptAction</string>
				<key>InputUUID</key>
				<string>7A6F1C2D-0001-4A5B-8C9D-000000000001</string>
				<key>Keywords</key>
				<array>
					<string>Shell</string>
				</array>
				<key>OutputUUID</key>
				<string>7A6F1C2D-0002-4A5B-8C9D-000000000002</string>
				<key>UUID</key>
				<string>7A6F1C2D-0003-4A5B-8C9D-000000000003</string>
				<key>UnlocalizedApplications</key>
				<array>
					<string>Automator</string>
				</array>
				<key>arguments</key>
				<dict>
					<key>0</key>
					<dict>
						<key>default value</key>
						<integer>0</integer>
						<key>name</key>
						<string>inputMethod</string>
						<key>required</key>
						<string>0</string>
						<key>type</key>
						<string>0</string>
						<key>uuid</key>
						<string>7A6F1C2D-0004-4A5B-8C9D-000000000004</string>
					</dict>
					<key>1</key>
					<dict>
						<key>default value</key>
						<false/>
						<key>name</key>
						<string>CheckedForUserDefaultShell</string>
						<key>required</key>
						<string>0</string>
						<key>type</key>
						<string>0</string>
						<key>uuid</key>
						<string>7A6F1C2D-0005-4A5B-8C9D-000000000005</string>
					</dict>
					<key>2</key>
					<dict>
						<key>default value</key>
						<string></string>
						<key>name</key>
						<string>source</string>
						<key>required</key>
						<string>0</string>
						<key>type</key>
						<string>0</string>
						<key>uuid</key>
						<string>7A6F1C2D-0006-4A5B-8C9D-000000000006</string>
					</dict>
					<key>3</key>
					<dict>
						<key>default value</key>
						<string></string>
						<key>name</key>
						<string>COMMAND_STRING</string>
						<key>required</key>
						<string>0</string>
						<key>type</key>
						<string>0</string>
						<key>uuid</key>
						<string>7A6F1C2D-0007-4A5B-8C9D-000000000007</string>
					</dict>
					<key>4</key>
					<dict>
						<key>default value</key>
						<string>/bin/zsh</string>
						<key>name</key>
						<string>shell</string>
						<key>required</key>
						<string>0</string>
						<key>type</key>
						<string>0</string>
						<key>uuid</key>
						<string>7A6F1C2D-0008-4A5B-8C9D-000000000008</string>
					</dict>
				</dict>
				<key>isViewVisible</key>
				<integer>1</integer>
				<key>location</key>
				<string>309.000000:253.000000</string>
				<key>nibPath</key>
				<string>/System/Library/Automator/Run Shell Script.action/Contents/Resources/Base.lproj/main.nib</string>
			</dict>
			<key>isViewVisible</key>
			<integer>1</integer>
		</dict>
	</array>
	<key>connectors</key>
	<dict/>
	<key>workflowMetaData</key>
	<dict>
		<key>applicationBundleIDsByPath</key>
		<dict/>
		<key>applicationPaths</key>
		<array/>
		<key>inputTypeIdentifier</key>
		<string>com.apple.Automator.fileSystemObject.folder</string>
		<key>outputTypeIdentifier</key>
		<string>com.apple.Automator.nothing</string>
		<key>presentationMode</key>
		<integer>11</integer>
		<key>processesInput</key>
		<integer>0</integer>
		<key>serviceInputTypeIdentifier</key>
		<string>com.apple.Automator.fileSystemObject.folder</string>
		<key>serviceOutputTypeIdentifier</key>
		<string>com.apple.Automator.nothing</string>
		<key>serviceProcessesInput</key>
		<integer>0</integer>
		<key>systemImageName</key>
		<string>NSActionTemplate</string>
		<key>useAutomaticInputType</key>
		<integer>0</integer>
		<key>workflowTypeIdentifier</key>
		<string>com.apple.Automator.servicesMenu</string>
	</dict>
</dict>
</plist>
"#;

/// The bundle's directory under the home directory `home`.
pub fn workflow_root(home: &PathBuf) -> (r: PathBuf)
    ensures
        r == joined(joined(*home, SERVICES_DIR@), WORKFLOW_DIR_NAME@),
{
    let services = join_name(home, SERVICES_DIR);
    join_name(&services, WORKFLOW_DIR_NAME)
}

pub open spec fn info_plist_of() -> Seq<char> {
    PLIST_HEAD@ + LABEL@ + PLIST_TAIL@
}

/// The bundle's `Info.plist`: a service for folders in the Finder.
pub fn info_plist() -> (r: String)
    ensures
        r@ == info_plist_of(),
{
    let mut s = String::new();
    push_str(&mut s, PLIST_HEAD);
    push_str(&mut s, LABEL);
    push_str(&mut s, PLIST_TAIL);
    s
}

/// The shell command that the workflow runs: the program on its arguments.
pub open spec fn workflow_command_of(exe: Seq<char>) -> Seq<char> {
    sh_quoted(exe) + " --gui \"$@\""@
}

pub open spec fn document_wflow_of(exe: Seq<char>) -> Seq<char> {
    WFLOW_HEAD@ + xml_escaped(workflow_command_of(exe)) + WFLOW_TAIL@
}

/// The bundle's `document.wflow` for the program shown as `exe`.
pub fn document_wflow(exe: &str) -> (r: String)
    ensures
        r@ == document_wflow_of(exe@),
{
    let mut cmd = sh_quote(exe);
    push_str(&mut cmd, " --gui \"$@\"");
    let script = xml_escape(cmd.as_str());
    let mut s = String::new();
    push_str(&mut s, WFLOW_HEAD);
    push_str(&mut s, script.as_str());
    push_str(&mut s, WFLOW_TAIL);
    s
}

pub open spec fn installed_line_of(root: Seq<char>) -> Seq<char> {
    "Quick Action 已安装: "@ + root
}

pub const INSTALL_HINT: &'static str = "在 Finder 中右键文件夹 → 快速操作(或 服务)→ Hash 去重并重命名";
pub const INSTALL_NOTE: &'static str = "如未立即出现,请注销重新登录或在 系统设置 → 隐私与安全性 → 扩展 中确认";
pub const NOT_INSTALLED: &'static str = "未发现已安装的 Quick Action";

/// The report of an installation at the bundle shown as `root`.
pub fn install_report(root: &str) -> (r: Vec<String>)
    ensures
        r@.len() == 3,
        r@[0]@ == installed_line_of(root@),
        r@[1]@ == INSTALL_HINT@,
        r@[2]@ == INSTALL_NOTE@,
{
    let mut first = String::new();
    push_str(&mut first, "Quick Action 已安装: ");
    push_str(&mut first, root);
    let mut r: Vec<String> = Vec::new();
    r.push(first);
    r.push(INSTALL_HINT.to_string());
    r.push(INSTALL_NOTE.to_string());
    r
}

/// The report of a removal: of the bundle shown as `root`, or of nothing
/// when it was not there.
pub fn uninstall_report(root: &str, existed: bool) -> (r: Vec<String>)
    ensures
        r@.len() == 1,
        existed ==> r@[0]@ == "Quick Action 已移除: "@ + root@,
        !existed ==> r@[0]@ == NOT_INSTALLED@,
{
    let mut r: Vec<String> = Vec::new();
    if existed {
        let mut l = String::new();
        push_str(&mut l, "Quick Action 已移除: ");
        push_str(&mut l, root);
        r.push(l);
    } else {
        r.push(NOT_INSTALLED.to_string());
    }
    r
}

} // verus!
