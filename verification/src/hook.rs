//! Scripts that run before or after an installation.

use crate::text;
use vstd::prelude::*;
use vstd::string::*;

verus! {

/// A script that runs before or after an installation.
#[derive(Clone, Copy, Debug, PartialEq, Eq, Structural)]
pub enum Hook {
    Pre,
    Post,
}

/// The word for a hook in the names of its files.
pub open spec fn hook_type(hook: Hook) -> Seq<char> {
    match hook {
        Hook::Pre => "pre"@,
        Hook::Post => "post"@,
    }
}

/// The word for a hook in the description of its unit.
pub open spec fn hook_title(hook: Hook) -> Seq<char> {
    match hook {
        Hook::Pre => "Pre"@,
        Hook::Post => "Post"@,
    }
}

/// When the unit of a hook runs.
pub open spec fn hook_deps(hook: Hook) -> Seq<char> {
    match hook {
        Hook::Pre => "After=coreos-installer-pre.target\nBefore=coreos-installer.service"@,
        Hook::Post => "After=coreos-installer.service\nBefore=coreos-installer.target"@,
    }
}

/// What requires the unit of a hook.
pub open spec fn hook_target(hook: Hook) -> Seq<char> {
    match hook {
        Hook::Pre => "coreos-installer.service"@,
        Hook::Post => "coreos-installer.target"@,
    }
}

/// Where the script of a hook is put.
pub open spec fn hook_script_path(hook: Hook, name: Seq<char>) -> Seq<char> {
    "/usr/local/bin/"@ + hook_type(hook) + "-install-"@ + name
}

/// The name of the unit of a hook.
pub open spec fn hook_unit_name(hook: Hook, name: Seq<char>) -> Seq<char> {
    hook_type(hook) + "-install-"@ + name + ".service"@
}

/// The unit of a hook.
pub open spec fn hook_unit(hook: Hook, name: Seq<char>) -> Seq<char> {
    "# Generated by coreos-installer {iso|pxe} customize\n\n[Unit]\nDescription="@ + hook_title(hook)
        + "-Install Script ("@ + name
        + ")\nDocumentation=https://coreos.github.io/coreos-installer/customizing-install/\n"@
        + hook_deps(hook) + "\n\n[Service]\nType=oneshot\nExecStart="@ + hook_script_path(hook, name)
        + "\nRemainAfterExit=true\nStandardOutput=kmsg+console\nStandardError=kmsg+console\n\n[Install]\nRequiredBy="@
        + hook_target(hook)
}

impl Hook {
    /// The word for the hook in the names of its files.
    pub fn type_text(self) -> (r: &'static str)
        ensures
            r@ == hook_type(self),
    {
        match self {
            Hook::Pre => "pre",
            Hook::Post => "post",
        }
    }

    /// The word for the hook in the description of its unit.
    pub fn title(self) -> (r: &'static str)
        ensures
            r@ == hook_title(self),
    {
        match self {
            Hook::Pre => "Pre",
            Hook::Post => "Post",
        }
    }

    /// When the unit of the hook runs.
    pub fn deps(self) -> (r: &'static str)
        ensures
            r@ == hook_deps(self),
    {
        match self {
            Hook::Pre => "After=coreos-installer-pre.target\nBefore=coreos-installer.service",
            Hook::Post => "After=coreos-installer.service\nBefore=coreos-installer.target",
        }
    }

    /// What requires the unit of the hook.
    pub fn target(self) -> (r: &'static str)
        ensures
            r@ == hook_target(self),
    {
        match self {
            Hook::Pre => "coreos-installer.service",
            Hook::Post => "coreos-installer.target",
        }
    }

    /// Where the script of the hook is put.
    pub fn script_path(self, name: &str) -> (r: String)
        ensures
            r@ == hook_script_path(self, name@),
    {
        let mut r = text::joined("/usr/local/bin/", self.type_text());
        r.append("-install-");
        r.append(name);
        r
    }

    /// The name of the unit of the hook.
    pub fn unit_name(self, name: &str) -> (r: String)
        ensures
            r@ == hook_unit_name(self, name@),
    {
        let mut r = text::joined(self.type_text(), "-install-");
        r.append(name);
        r.append(".service");
        r
    }

    /// The unit of the hook.
    pub fn unit(self, name: &str) -> (r: String)
        ensures
            r@ == hook_unit(self, name@),
    {
        let mut r = text::joined(
            "# Generated by coreos-installer {iso|pxe} customize\n\n[Unit]\nDescription=",
            self.title(),
        );
        r.append("-Install Script (");
        r.append(name);
        r.append(
            ")\nDocumentation=https://coreos.github.io/coreos-installer/customizing-install/\n",
        );
        r.append(self.deps());
        r.append("\n\n[Service]\nType=oneshot\nExecStart=");
        r.append(self.script_path(name).as_str());
        r.append(
            "\nRemainAfterExit=true\nStandardOutput=kmsg+console\nStandardError=kmsg+console\n\n[Install]\nRequiredBy=",
        );
        r.append(self.target());
        r
    }
}

} // verus!
