//! The repository's exact Rust toolchain declaration.

use vstd::prelude::*;

use crate::error::{Error, ToolchainField};
use crate::text::{is_blank, join, join_with, trimmed, views};

verus! {

/// The toolchain table of `rust-toolchain.toml`.
#[derive(Clone, Debug)]
pub struct Toolchain {
    pub channel: String,
    pub profile: String,
    pub components: Vec<String>,
    pub targets: Vec<String>,
}

/// A `rust-toolchain.toml` file.
#[derive(Clone, Debug)]
pub struct ToolchainFile {
    pub toolchain: Toolchain,
}

/// The profile of a toolchain that declares none.
pub fn minimal() -> (r: String)
    ensures
        r@ == "minimal"@,
{
    "minimal".to_owned()
}

/// Every entry is nonempty.
pub open spec fn all_nonempty(v: Seq<String>) -> bool {
    forall|i: int| 0 <= i < v.len() ==> (#[trigger] v[i])@.len() > 0
}

fn none_empty(v: &Vec<String>) -> (r: bool)
    ensures
        r == all_nonempty(v@),
{
    let mut i: usize = 0;
    while i < v.len()
        invariant
            i <= v@.len(),
            forall|k: int| 0 <= k < i ==> (#[trigger] v@[k])@.len() > 0,
        decreases v@.len() - i,
    {
        if v[i].as_str().is_empty() {
            return false;
        }
        i = i + 1;
    }
    true
}

impl ToolchainFile {
    /// The declaration is well formed: a channel and a profile that are not blank,
    /// and no empty component or target.
    pub open spec fn valid(self) -> bool {
        &&& trimmed(self.toolchain.channel@).len() > 0
        &&& trimmed(self.toolchain.profile@).len() > 0
        &&& all_nonempty(self.toolchain.components@)
        &&& all_nonempty(self.toolchain.targets@)
    }

    /// Checks the declaration; a refusal names the first defect found.
    pub fn validate(&self) -> (r: Result<(), Error>)
        ensures
            r is Ok <==> self.valid(),
            r matches Err(e) ==> match e {
                Error::EmptyToolchainField(ToolchainField::Channel) => trimmed(self.toolchain.channel@).len() == 0,
                Error::EmptyToolchainField(ToolchainField::Profile) => trimmed(self.toolchain.profile@).len() == 0,
                Error::EmptyToolchainEntry => !all_nonempty(self.toolchain.components@) || !all_nonempty(
                    self.toolchain.targets@,
                ),
                _ => false,
            },
    {
        let spec = &self.toolchain;
        if is_blank(spec.channel.as_str()) {
            return Err(Error::EmptyToolchainField(ToolchainField::Channel));
        }
        if is_blank(spec.profile.as_str()) {
            return Err(Error::EmptyToolchainField(ToolchainField::Profile));
        }
        if !none_empty(&spec.components) || !none_empty(&spec.targets) {
            return Err(Error::EmptyToolchainEntry);
        }
        Ok(())
    }

    /// The command that installs the toolchain, program first.
    pub fn install_command(&self) -> (r: Vec<String>)
        ensures
            views(r@) == seq![
                "rustup"@,
                "toolchain"@,
                "install"@,
                self.toolchain.channel@,
                "--profile"@,
                self.toolchain.profile@,
            ] + if self.toolchain.components@.len() == 0 {
                seq![]
            } else {
                seq!["--component"@, join_with(views(self.toolchain.components@), ","@)]
            },
    {
        let spec = &self.toolchain;
        let mut command: Vec<String> = Vec::new();
        command.push("rustup".to_owned());
        command.push("toolchain".to_owned());
        command.push("install".to_owned());
        command.push(spec.channel.clone());
        command.push("--profile".to_owned());
        command.push(spec.profile.clone());
        if spec.components.len() != 0 {
            command.push("--component".to_owned());
            command.push(join(&spec.components, ","));
        }
        assert(views(command@) =~= seq![
            "rustup"@,
            "toolchain"@,
            "install"@,
            self.toolchain.channel@,
            "--profile"@,
            self.toolchain.profile@,
        ] + if self.toolchain.components@.len() == 0 {
            seq![]
        } else {
            seq!["--component"@, join_with(views(self.toolchain.components@), ","@)]
        });
        command
    }

    /// The command that adds the declared targets, program first, where there are any.
    pub fn target_command(&self) -> (r: Option<Vec<String>>)
        ensures
            match r {
                Some(command) => self.toolchain.targets@.len() > 0 && views(command@) == seq![
                    "rustup"@,
                    "target"@,
                    "add"@,
                    "--toolchain"@,
                    self.toolchain.channel@,
                ] + views(self.toolchain.targets@),
                None => self.toolchain.targets@.len() == 0,
            },
    {
        let spec = &self.toolchain;
        if spec.targets.len() == 0 {
            return None;
        }
        let mut command: Vec<String> = Vec::new();
        command.push("rustup".to_owned());
        command.push("target".to_owned());
        command.push("add".to_owned());
        command.push("--toolchain".to_owned());
        command.push(spec.channel.clone());
        let ghost head = seq!["rustup"@, "target"@, "add"@, "--toolchain"@, self.toolchain.channel@];
        assert(views(command@) =~= head);
        assert(views(spec.targets@).subrange(0, 0) =~= Seq::<Seq<char>>::empty());
        let mut i: usize = 0;
        while i < spec.targets.len()
            invariant
                head == seq!["rustup"@, "target"@, "add"@, "--toolchain"@, self.toolchain.channel@],
                i <= spec.targets@.len(),
                views(command@) == head + views(spec.targets@).subrange(0, i as int),
            decreases spec.targets@.len() - i,
        {
            let ghost before = command@;
            command.push(spec.targets[i].clone());
            assert(views(command@) =~= views(before).push(spec.targets@[i as int]@));
            assert(views(spec.targets@).subrange(0, i + 1) =~= views(spec.targets@).subrange(0, i as int).push(
                spec.targets@[i as int]@,
            ));
            i = i + 1;
            assert(views(command@) =~= head + views(spec.targets@).subrange(0, i as int));
        }
        assert(views(spec.targets@).subrange(0, i as int) =~= views(spec.targets@));
        Some(command)
    }
}

} // verus!
