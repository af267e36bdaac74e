//! The verified core of an interactive command shell.
//!
//! The library decides; its caller reads, runs and prints. It turns keys
//! into edits of a line ([`editor`]), lines into complete commands
//! ([`shell`]), and commands into plans: chains ([`chain`]), subshells
//! ([`subshell`]), redirections ([`redirects`]), pipelines ([`pipes`]),
//! here-documents ([`heredoc`]) and simple commands ([`command`],
//! [`builtins`]). It keeps the table of background jobs ([`jobs`]) and the
//! history ([`history`]), and lays out the prompt ([`prompt`]).
//!
//! Every function states what it returns over character sequences, the
//! view of strings, and is proved to do so. The exceptions are named where
//! they stand: two functions of the standard library whose contracts are
//! taken on trust ([`text`], [`variables`]), and the calls that paint the
//! prompt and ask for the name of the machine ([`prompt`]).

pub mod builtins;
pub mod chain;
pub mod command;
pub mod editor;
pub mod heredoc;
pub mod history;
pub mod jobs;
pub mod pipes;
pub mod prompt;
pub mod redirects;
pub mod shell;
pub mod signal_handler;
pub mod subshell;
pub mod text;
pub mod variables;
