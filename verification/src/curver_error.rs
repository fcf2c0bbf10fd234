use vstd::prelude::*;
use vstd::string::StringExecFns;
use crate::identity::{hyphenated, uuid_hyphenated};

verus! {

/// What the server can refuse.
#[derive(Debug, Clone, Copy)]
pub enum ServerError {
    /// No room has this identity.
    RoomDoesNotExist(u128),
}

impl ServerError {
    /// The sentence that tells a client of the error.
    pub open spec fn message(self) -> Seq<char> {
        match self {
            ServerError::RoomDoesNotExist(room_id) => "Room "@ + uuid_hyphenated(room_id)
                + " does not exist"@,
        }
    }

    /// The error as a sentence.
    pub fn to_string(&self) -> (text: String)
        ensures
            text@ == self.message(),
    {
        match self {
            ServerError::RoomDoesNotExist(room_id) => {
                let mut text = String::from_str("Room ");
                let id_text = hyphenated(*room_id);
                text.append(id_text.as_str());
                text.append(" does not exist");
                text
            },
        }
    }
}

} // verus!
