use vstd::prelude::*;

verus! {

/// Error type for failed execution of a command.
#[derive(Debug, Clone, PartialEq, Eq)]
pub struct CommandError(pub String);

/// Trait for executable analysis commands; implementations are the
/// statistical operations downstream of the point data model.
pub trait Command {
    fn execute(&mut self) -> Result<(), CommandError> {
        Ok(())
    }
}

} // verus!
