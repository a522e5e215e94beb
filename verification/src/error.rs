//! The error type of this library.

use vstd::prelude::*;
use vstd::string::StringExecFns;

verus! {

#[verifier::external_type_specification]
#[verifier::external_body]
pub struct ExEngineError(sled::Error);

#[verifier::external_type_specification]
#[verifier::external_body]
pub struct ExJsonError(serde_json::Error);

#[verifier::external_type_specification]
#[verifier::external_body]
pub struct ExCborError(serde_cbor::Error);

#[verifier::external_type_specification]
#[verifier::external_body]
pub struct ExBincodeErrorKind(bincode::ErrorKind);

/// What can go wrong in a tree operation.
#[derive(Debug)]
pub enum TreeError {
    /// A value could not be written as JSON.
    JsonSerialize(serde_json::Error),
    /// Stored bytes could not be read as JSON.
    JsonDeserialize(serde_json::Error),
    /// A value could not be written as CBOR.
    CborSerialize(serde_cbor::Error),
    /// Stored bytes could not be read as CBOR.
    CborDeserialize(serde_cbor::Error),
    /// A value could not be written with bincode.
    BincodeSerialize(Box<bincode::ErrorKind>),
    /// Stored bytes could not be read with bincode.
    BincodeDeserialize(Box<bincode::ErrorKind>),
    /// An error of the caller's own, kept as its message.
    Custom(String),
    /// The database reported an error.
    Sled(sled::Error),
}

/// What went wrong, whatever the error that tells of it.
#[derive(Clone, Copy, Debug)]
pub enum Fault {
    /// A value could not be written.
    Serializing,
    /// Stored bytes could not be read.
    Deserializing,
    /// The caller's own.
    Custom,
    /// The database failed.
    Database,
}

impl Fault {
    /// How the message of such an error begins.
    pub open spec fn words(&self) -> Seq<char> {
        match self {
            Fault::Serializing => "There was an error serializing data, "@,
            Fault::Deserializing => "There was an error deserializing data, "@,
            Fault::Custom => "There was a custom error, "@,
            Fault::Database => "There was an error in the database, "@,
        }
    }

    /// How the message of such an error begins.
    pub fn opening(&self) -> (r: String)
        ensures
            r@ == self.words(),
    {
        match self {
            Fault::Serializing => "There was an error serializing data, ".to_owned(),
            Fault::Deserializing => "There was an error deserializing data, ".to_owned(),
            Fault::Custom => "There was a custom error, ".to_owned(),
            Fault::Database => "There was an error in the database, ".to_owned(),
        }
    }
}

impl TreeError {
    /// The error comes from the database, not from an encoding or the caller.
    pub open spec fn is_engine(&self) -> bool {
        self is Sled
    }

    /// An error of the caller's own, kept as its message.
    pub fn custom(message: String) -> (r: TreeError)
        ensures
            r == TreeError::Custom(message),
    {
        TreeError::Custom(message)
    }

    /// How the message of the error begins: what went wrong, before the words of
    /// the error that is held.
    pub open spec fn opening(&self) -> Seq<char> {
        self.fault_of().words()
    }

    /// What went wrong.
    pub open spec fn fault_of(&self) -> Fault {
        match self {
            TreeError::JsonSerialize(_) | TreeError::CborSerialize(_) | TreeError::BincodeSerialize(
                _,
            ) => Fault::Serializing,
            TreeError::JsonDeserialize(_) | TreeError::CborDeserialize(_)
            | TreeError::BincodeDeserialize(_) => Fault::Deserializing,
            TreeError::Custom(_) => Fault::Custom,
            TreeError::Sled(_) => Fault::Database,
        }
    }

    /// What went wrong.
    pub fn fault(&self) -> (r: Fault)
        ensures
            r == self.fault_of(),
    {
        match self {
            TreeError::JsonSerialize(_) => Fault::Serializing,
            TreeError::CborSerialize(_) => Fault::Serializing,
            TreeError::BincodeSerialize(_) => Fault::Serializing,
            TreeError::JsonDeserialize(_) => Fault::Deserializing,
            TreeError::CborDeserialize(_) => Fault::Deserializing,
            TreeError::BincodeDeserialize(_) => Fault::Deserializing,
            TreeError::Custom(_) => Fault::Custom,
            TreeError::Sled(_) => Fault::Database,
        }
    }

    /// The message of the error: its opening, and then the words of the error
    /// that is held.
    pub fn message(&self) -> (r: String)
        ensures
            r@.len() >= self.opening().len(),
            r@.subrange(0, self.opening().len() as int) == self.opening(),
            self matches TreeError::Custom(words) ==> r@ == self.opening() + words@,
    {
        let words = match self {
            TreeError::JsonSerialize(e) => e.to_string(),
            TreeError::JsonDeserialize(e) => e.to_string(),
            TreeError::CborSerialize(e) => e.to_string(),
            TreeError::CborDeserialize(e) => e.to_string(),
            TreeError::BincodeSerialize(e) => e.to_string(),
            TreeError::BincodeDeserialize(e) => e.to_string(),
            TreeError::Custom(words) => words.clone(),
            TreeError::Sled(e) => e.to_string(),
        };
        let opening = self.fault().opening();
        let ghost start = opening@;
        let r = opening.concat(words.as_str());
        assert(r@.subrange(0, start.len() as int) =~= start);
        r
    }

    /// Whether the error comes from the database.
    pub fn from_engine(&self) -> (r: bool)
        ensures
            r == self.is_engine(),
    {
        match self {
            TreeError::Sled(_) => true,
            _ => false,
        }
    }
}

impl From<sled::Error> for TreeError {
    fn from(e: sled::Error) -> (r: TreeError) {
        TreeError::Sled(e)
    }
}

impl vstd::std_specs::convert::FromSpecImpl<sled::Error> for TreeError {
    open spec fn obeys_from_spec() -> bool {
        true
    }

    open spec fn from_spec(e: sled::Error) -> TreeError {
        TreeError::Sled(e)
    }
}

/// Turns an optional result inside out: no value is a success with no value, a
/// value is a success with it, and an error stays the error.
pub fn coerce<T>(opt: Option<Result<T, TreeError>>) -> (r: Result<Option<T>, TreeError>)
    ensures
        r == match opt {
            Some(Ok(t)) => Ok::<Option<T>, TreeError>(Some(t)),
            Some(Err(e)) => Err(e),
            None => Ok(None),
        },
{
    match opt {
        Some(Ok(t)) => Ok(Some(t)),
        Some(Err(e)) => Err(e),
        None => Ok(None),
    }
}

} // verus!
