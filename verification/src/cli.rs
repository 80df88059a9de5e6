//! The command shell's logic: tokenizing input lines, matching them
//! against command patterns, extracting arguments, completion
//! candidates and the prompt.  The line editor and the command
//! handlers live outside the verified core.

pub mod commands;
pub mod helper;
pub mod shell;
