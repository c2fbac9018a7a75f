pub mod elisp;
pub mod agenda;
pub mod habits;
pub mod tasks;
pub mod inbox;
