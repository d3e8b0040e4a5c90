//! The static command catalogue, as the keybinding engine sees it.
//!
//! The engine treats commands as opaque, ordered, side-effecting actions: it
//! needs a stable identity, a textual name, a description, and the contract
//! that executing a command either succeeds or fails with a reason. The
//! catalogue is closed and populated once; bindings refer to its entries by
//! value.

use vstd::prelude::*;
use vstd::string::StringExecFns;

verus! {

/// Identity of one entry of the static command catalogue.
#[derive(Clone, Copy, PartialEq, Eq, Structural, Hash, Debug)]
pub enum CommandKind {
    /// Escape from the current mode.
    Escape,
    /// Do nothing.
    Nop,
    /// Always fail; bound where a chord should surface an error.
    Error,
}

/// One editor command: a named, zero-argument operation whose execution
/// either succeeds or fails with a reason.
#[derive(Clone, Copy, PartialEq, Eq, Structural, Hash, Debug)]
pub struct KCommand {
    pub kind: CommandKind,
}

impl KCommand {
    /// The command's unique textual name.
    pub open spec fn spec_name(self) -> Seq<char> {
        match self.kind {
            CommandKind::Escape => "escape"@,
            CommandKind::Nop => "nop"@,
            CommandKind::Error => "error"@,
        }
    }

    /// The command's human-readable description.
    pub open spec fn spec_doc(self) -> Seq<char> {
        match self.kind {
            CommandKind::Escape => "Escape from current mode"@,
            CommandKind::Nop => "Does Nothing"@,
            CommandKind::Error => "Just an error"@,
        }
    }

    /// Whether executing the command reports a failure.
    pub open spec fn spec_fails(self) -> bool {
        self.kind == CommandKind::Error
    }

    /// The catalogue entry that escapes from the current mode.
    pub fn escape() -> (r: Self)
        ensures
            r.kind == CommandKind::Escape,
    {
        Self { kind: CommandKind::Escape }
    }

    /// The catalogue entry that does nothing.
    pub fn nop() -> (r: Self)
        ensures
            r.kind == CommandKind::Nop,
    {
        Self { kind: CommandKind::Nop }
    }

    /// The catalogue entry that always fails.
    pub fn error() -> (r: Self)
        ensures
            r.kind == CommandKind::Error,
    {
        Self { kind: CommandKind::Error }
    }

    /// The command's name.
    pub fn name(&self) -> (r: String)
        ensures
            r@ == self.spec_name(),
    {
        match self.kind {
            CommandKind::Escape => String::from_str("escape"),
            CommandKind::Nop => String::from_str("nop"),
            CommandKind::Error => String::from_str("error"),
        }
    }

    /// The command's description.
    pub fn doc(&self) -> (r: String)
        ensures
            r@ == self.spec_doc(),
    {
        match self.kind {
            CommandKind::Escape => String::from_str("Escape from current mode"),
            CommandKind::Nop => String::from_str("Does Nothing"),
            CommandKind::Error => String::from_str("Just an error"),
        }
    }

    /// The whole catalogue, in declaration order.
    pub fn static_command_list() -> (r: Vec<KCommand>)
        ensures
            r@ == seq![
                (KCommand { kind: CommandKind::Escape }),
                (KCommand { kind: CommandKind::Nop }),
                (KCommand { kind: CommandKind::Error }),
            ],
    {
        let mut list: Vec<KCommand> = Vec::new();
        list.push(Self::escape());
        list.push(Self::nop());
        list.push(Self::error());
        proof {
            assert(list@ =~= seq![
                (KCommand { kind: CommandKind::Escape }),
                (KCommand { kind: CommandKind::Nop }),
                (KCommand { kind: CommandKind::Error }),
            ]);
        }
        list
    }

    /// Run the command. Succeeds exactly when the command is not a failing
    /// one; on failure the reason is the command's description.
    pub fn exec(&self) -> (r: Result<(), String>)
        ensures
            r is Ok <==> !self.spec_fails(),
            r matches Err(m) ==> m@ == self.spec_doc(),
    {
        match self.kind {
            CommandKind::Error => Err(self.doc()),
            _ => Ok(()),
        }
    }
}

} // verus!
