use vstd::prelude::*;

use vstd::string::StringExecFns;

verus! {

/// A client-side command, rendered to one protocol line.
pub enum Command {
    Ping,
    TextSet { key: String, value: String },
    Get { key: String },
}

/// The client's invocation: the one command to send.
pub struct Cli {
    pub command: Command,
}

impl Command {
    /// The protocol line the command stands for.
    pub open spec fn line(self) -> Seq<char> {
        match self {
            Command::Ping => "PING"@,
            Command::TextSet { key, value } => "SET "@ + key@ + " "@ + value@,
            Command::Get { key } => "GET "@ + key@,
        }
    }

    /// Render the command as its protocol line.
    pub fn to_line(&self) -> (r: String)
        ensures
            r@ == self.line(),
    {
        match self {
            Command::Ping => String::from_str("PING"),
            Command::TextSet { key, value } => {
                let mut s = String::from_str("SET ");
                s.append(key.as_str());
                s.append(" ");
                s.append(value.as_str());
                s
            },
            Command::Get { key } => {
                let mut s = String::from_str("GET ");
                s.append(key.as_str());
                s
            },
        }
    }
}

} // verus!
