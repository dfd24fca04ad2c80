//! What a client connection does with each message it receives.
use vstd::prelude::*;

verus! {

/// A request from a client. Entry identifiers are the 128 bits of a UUID.
#[allow(inconsistent_fields)]
pub enum Command {
    Authenticate { password: String },
    Add { song: i64, singer: String, password: Option<String> },
    Play { id: u128 },
    RemoveAsAdmin { id: u128 },
    RemoveAsUser { id: u128, password: String },
    Swap { id1: u128, id2: u128 },
    MoveAfter { id: u128, after: u128 },
    MoveTop { id: u128 },
    ReportBug { song: i64, report: String },
}

/// Whether only an authenticated connection may issue `cmd`.
pub open spec fn is_admin_command(cmd: Command) -> bool {
    match cmd {
        Command::Play { .. } | Command::RemoveAsAdmin { .. } | Command::Swap { .. }
        | Command::MoveAfter { .. } | Command::MoveTop { .. } | Command::ReportBug { .. } => true,
        _ => false,
    }
}

impl Command {
    /// Whether only an authenticated connection may issue this command.
    pub fn requires_admin(&self) -> (r: bool)
        ensures
            r == is_admin_command(*self),
    {
        match self {
            Command::Play { .. } | Command::RemoveAsAdmin { .. } | Command::Swap { .. }
            | Command::MoveAfter { .. } | Command::MoveTop { .. } | Command::ReportBug {
                ..
            } => true,
            _ => false,
        }
    }
}

/// A message received on a client connection.
pub enum Inbound {
    /// A text frame that held a well-formed command.
    Command(Command),
    /// A text frame that did not hold a well-formed command.
    Malformed,
    Ping(Vec<u8>),
    Pong,
    Binary,
    Close,
}

/// What the connection does in answer to a message.
pub enum Reaction {
    /// Carry out the command on the playlist.
    Execute(Command),
    /// Send the one-byte frame `[1]` if authenticated, `[0]` otherwise.
    AuthResult(bool),
    /// Send the text frame `Unauthenticated`.
    Unauthenticated,
    /// Reply with a pong that carries the same payload.
    Pong(Vec<u8>),
    /// Nothing to do.
    Ignore,
    /// The client closed the connection: unsubscribe and stop.
    Closed,
    /// The client sent something unreadable: end the connection.
    Terminate,
}

/// The state of one client connection.
pub struct Session {
    pub authenticated: bool,
}

impl Session {
    /// A fresh, unauthenticated connection.
    pub fn new() -> (r: Session)
        ensures
            !r.authenticated,
    {
        Session { authenticated: false }
    }

    /// Decides what to do with one message. `Authenticate` logs out an
    /// authenticated connection, and otherwise authenticates it exactly when
    /// the password equals `admin_password`; administrative commands of an
    /// unauthenticated connection are refused; every other command is carried
    /// out.
    pub fn handle(&mut self, inbound: Inbound, admin_password: &String) -> (r: Reaction)
        ensures
            match inbound {
                Inbound::Command(Command::Authenticate { password }) => {
                    &&& final(self).authenticated == (!old(self).authenticated && password@
                        == admin_password@)
                    &&& r == Reaction::AuthResult(final(self).authenticated)
                },
                Inbound::Command(cmd) => {
                    &&& final(self).authenticated == old(self).authenticated
                    &&& r == if is_admin_command(cmd) && !old(self).authenticated {
                        Reaction::Unauthenticated
                    } else {
                        Reaction::Execute(cmd)
                    }
                },
                Inbound::Malformed => final(self).authenticated == old(self).authenticated && r
                    == Reaction::Terminate,
                Inbound::Ping(payload) => final(self).authenticated == old(self).authenticated && r
                    == Reaction::Pong(payload),
                Inbound::Pong | Inbound::Binary => final(self).authenticated == old(
                    self,
                ).authenticated && r == Reaction::Ignore,
                Inbound::Close => final(self).authenticated == old(self).authenticated && r
                    == Reaction::Closed,
            },
    {
        match inbound {
            Inbound::Command(cmd) => {
                match cmd {
                    Command::Authenticate { password } => {
                        if self.authenticated {
                            self.authenticated = false;
                        } else {
                            self.authenticated = password.eq(admin_password);
                        }
                        Reaction::AuthResult(self.authenticated)
                    },
                    other => {
                        if other.requires_admin() && !self.authenticated {
                            Reaction::Unauthenticated
                        } else {
                            Reaction::Execute(other)
                        }
                    },
                }
            },
            Inbound::Malformed => Reaction::Terminate,
            Inbound::Ping(payload) => Reaction::Pong(payload),
            Inbound::Pong => Reaction::Ignore,
            Inbound::Binary => Reaction::Ignore,
            Inbound::Close => Reaction::Closed,
        }
    }
}

} // verus!
