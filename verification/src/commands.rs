//! The command vocabulary of the client: what each addressbook and card
//! subcommand carries, and how a command's fields become the record its
//! operation works on. Argument parsing and terminal interaction live
//! with the driver; these are the bare commands themselves.

use vstd::prelude::*;

use crate::model::{is_uuid_byte, Addressbook};
use crate::scan::{bytes_of, string_bytes};

verus! {

/// Create a new addressbook from a name, a description and a color.
pub struct CreateAddressbookCommand {
    pub name: Option<String>,
    pub description: Option<String>,
    pub color: Option<String>,
}

/// List all addressbooks under the home collection.
pub struct ListAddressbooksCommand;

/// Update the properties of an existing addressbook, by its identifier.
pub struct UpdateAddressbookCommand {
    pub id: String,
    pub name: Option<String>,
    pub description: Option<String>,
    pub color: Option<String>,
}

/// Delete an addressbook by its identifier; `yes` skips confirmation.
pub struct DeleteAddressbookCommand {
    pub id: String,
    pub yes: bool,
}

/// Create, list, update and delete addressbooks.
pub enum AddressbookSubcommand {
    Create(CreateAddressbookCommand),
    List(ListAddressbooksCommand),
    Update(UpdateAddressbookCommand),
    Delete(DeleteAddressbookCommand),
}

/// Add a new vCard to the given addressbook.
pub struct CreateCardCommand {
    pub addressbook_id: String,
}

/// Read the content of one vCard from the given addressbook.
pub struct ReadCardCommand {
    pub addressbook_id: String,
    pub card_id: String,
}

/// List the vCards of the given addressbook.
pub struct ListCardsCommand {
    pub addressbook_id: String,
}

/// Update one vCard of the given addressbook.
pub struct UpdateCardCommand {
    pub addressbook_id: String,
    pub card_id: String,
}

/// Delete one vCard from the given addressbook.
pub struct DeleteCardCommand {
    pub addressbook_id: String,
    pub card_id: String,
}

/// Create, read, list, update and delete cards.
pub enum CardSubcommand {
    Create(CreateCardCommand),
    Read(ReadCardCommand),
    List(ListCardsCommand),
    Update(UpdateCardCommand),
    Delete(DeleteCardCommand),
}

fn opt_string_bytes(s: &Option<String>) -> (r: Option<Vec<u8>>)
    ensures
        match s {
            None => r is None,
            Some(v) => match r {
                Some(b) => b@ == string_bytes(*v),
                None => false,
            },
        },
{
    match s {
        None => None,
        Some(v) => Some(bytes_of(v.as_str().as_bytes())),
    }
}

impl CreateAddressbookCommand {
    /// The addressbook this command asks to create: a fresh, URI-safe
    /// identifier carrying exactly the given name, description and
    /// color.
    pub fn into_addressbook(self) -> (r: Addressbook)
        ensures
            r@.id.len() == 36,
            forall|i: int| 0 <= i < r@.id.len() ==> is_uuid_byte(#[trigger] r@.id[i]),
            match self.name {
                None => r@.display_name is None,
                Some(v) => r@.display_name == Some(string_bytes(v)),
            },
            match self.description {
                None => r@.description is None,
                Some(v) => r@.description == Some(string_bytes(v)),
            },
            match self.color {
                None => r@.color is None,
                Some(v) => r@.color == Some(string_bytes(v)),
            },
    {
        let mut book = Addressbook::new();
        book.display_name = opt_string_bytes(&self.name);
        book.description = opt_string_bytes(&self.description);
        book.color = opt_string_bytes(&self.color);
        book
    }
}

impl UpdateAddressbookCommand {
    /// The addressbook record this command asks to write: the named
    /// collection with exactly the given properties.
    pub fn into_addressbook(self) -> (r: Addressbook)
        ensures
            r@.id == string_bytes(self.id),
            match self.name {
                None => r@.display_name is None,
                Some(v) => r@.display_name == Some(string_bytes(v)),
            },
            match self.description {
                None => r@.description is None,
                Some(v) => r@.description == Some(string_bytes(v)),
            },
            match self.color {
                None => r@.color is None,
                Some(v) => r@.color == Some(string_bytes(v)),
            },
    {
        Addressbook {
            id: bytes_of(self.id.as_str().as_bytes()),
            display_name: opt_string_bytes(&self.name),
            description: opt_string_bytes(&self.description),
            color: opt_string_bytes(&self.color),
        }
    }
}

impl DeleteAddressbookCommand {
    /// Whether the deletion may proceed without asking the user first.
    pub fn skip_confirmation(&self) -> (r: bool)
        ensures
            r == self.yes,
    {
        self.yes
    }
}

} // verus!
