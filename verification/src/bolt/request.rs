//! The requests that a client sends, each a structure with its own tag.

use crate::bolt::structs::owned::{Bolt, BoltMap};
use crate::bolt::structs::{lemma_not_found, values_of, BoltRef};
use crate::errors::Error;
use crate::packstream::grammar::{encode_items, oversize_items};
use crate::packstream::ser::{
    lemma_items_none, lemma_items_push, lemma_prefix_oversize, put_value, written_items,
};
use crate::packstream::value::Value;
use crate::packstream::wire::{encode_struct_head, write_struct_head};
use vstd::prelude::*;

verus! {

pub const TAG_HELLO: u8 = 0x01;

pub const TAG_GOODBYE: u8 = 0x02;

pub const TAG_RESET: u8 = 0x0F;

pub const TAG_RUN: u8 = 0x10;

pub const TAG_BEGIN: u8 = 0x11;

pub const TAG_COMMIT: u8 = 0x12;

pub const TAG_ROLLBACK: u8 = 0x13;

pub const TAG_DISCARD: u8 = 0x2F;

pub const TAG_PULL: u8 = 0x3F;

/// The bytes of a message: the header of a structure with the message's tag
/// and the number of its fields, then the fields.
pub open spec fn message_bytes(tag: u8, fields: Seq<Value>) -> Seq<u8> {
    encode_struct_head(fields.len(), tag) + encode_items(fields, 0)
}

/// What writing a message returns: its bytes, unless a container in one of
/// its fields is too long for a 32-bit length.
pub open spec fn message(tag: u8, fields: Seq<Value>) -> Result<Seq<u8>, Error> {
    match oversize_items(fields, 0) {
        Some(c) => Err(Error::TooLong { container: c }),
        None => Ok(message_bytes(tag, fields)),
    }
}

/// Whether `r` is what writing returned, given what should have been written.
pub open spec fn wrote(r: Result<Vec<u8>, Error>, expected: Result<Seq<u8>, Error>) -> bool {
    match expected {
        Ok(bytes) => r matches Ok(out) && out@ == bytes,
        Err(e) => r == Err::<Vec<u8>, Error>(e),
    }
}

/// The bytes of the message with the given tag and fields.
pub(crate) fn write_message(tag: u8, fields: &Vec<BoltRef>) -> (r: Result<Vec<u8>, Error>)
    requires
        fields@.len() < 16,
    ensures
        wrote(r, message(tag, values_of(fields@))),
{
    let mut out: Vec<u8> = Vec::new();
    let n: usize = fields.len();
    let ghost values = values_of(fields@);
    write_struct_head(&mut out, n as u8, tag);
    let ghost start = out@;
    assert(start =~= encode_struct_head(values.len(), tag));
    proof {
        lemma_items_none(start);
    }
    let mut i: usize = 0;
    while i < n
        invariant
            n == fields@.len(),
            values == values_of(fields@),
            i <= n,
            written_items(start, out@, values.take(i as int), Ok(())),
        decreases n - i,
    {
        let ghost before = out@;
        let r = put_value(&mut out, &fields[i]);
        proof {
            assert(values[i as int] == fields@[i as int]@);
            lemma_items_push(start, before, out@, values.take(i as int), values[i as int], r);
            assert(values.take(i + 1) =~= values.take(i as int).push(values[i as int]));
            lemma_prefix_oversize(values, i + 1);
        }
        match r {
            Err(c) => {
                return Err(Error::TooLong { container: c });
            },
            Ok(()) => {},
        }
        i += 1;
    }
    assert(values.take(n as int) =~= values);
    Ok(out)
}

/// The bytes of a message without fields.
pub(crate) fn write_signal(tag: u8) -> (r: Vec<u8>)
    ensures
        r@ == message_bytes(tag, Seq::empty()),
{
    let mut out: Vec<u8> = Vec::new();
    write_struct_head(&mut out, 0, tag);
    assert(encode_items(Seq::<Value>::empty(), 0) =~= Seq::<u8>::empty());
    assert(out@ =~= message_bytes(tag, Seq::empty()));
    out
}

/// The request that ends the session.
#[derive(Debug, Clone, Copy, PartialEq, Eq, Structural)]
pub struct Goodbye;

impl Goodbye {
    pub fn new() -> (r: Self)
        ensures
            r == Goodbye,
    {
        Goodbye
    }

    /// The bytes of this request: a structure with the tag `0x02` and no field.
    pub fn to_bytes(&self) -> (r: Vec<u8>)
        ensures
            r@ == message_bytes(TAG_GOODBYE, Seq::empty()),
    {
        write_signal(TAG_GOODBYE)
    }
}

/// The request that clears a failure and returns the connection to its
/// ready state.
#[derive(Debug, Clone, Copy, PartialEq, Eq, Structural)]
pub struct Reset;

impl Reset {
    pub fn new() -> (r: Self)
        ensures
            r == Reset,
    {
        Reset
    }

    /// The bytes of this request: a structure with the tag `0x0F` and no field.
    pub fn to_bytes(&self) -> (r: Vec<u8>)
        ensures
            r@ == message_bytes(TAG_RESET, Seq::empty()),
    {
        write_signal(TAG_RESET)
    }
}

/// The request that commits the open transaction.
#[derive(Debug, Clone, Copy, PartialEq, Eq, Structural)]
pub struct Commit;

impl Commit {
    pub fn new() -> (r: Self)
        ensures
            r == Commit,
    {
        Commit
    }

    /// The bytes of this request: a structure with the tag `0x12` and no field.
    pub fn to_bytes(&self) -> (r: Vec<u8>)
        ensures
            r@ == message_bytes(TAG_COMMIT, Seq::empty()),
    {
        write_signal(TAG_COMMIT)
    }
}

/// The request that rolls the open transaction back.
#[derive(Debug, Clone, Copy, PartialEq, Eq, Structural)]
pub struct Rollback;

impl Rollback {
    pub fn new() -> (r: Self)
        ensures
            r == Rollback,
    {
        Rollback
    }

    /// The bytes of this request: a structure with the tag `0x13` and no field.
    pub fn to_bytes(&self) -> (r: Vec<u8>)
        ensures
            r@ == message_bytes(TAG_ROLLBACK, Seq::empty()),
    {
        write_signal(TAG_ROLLBACK)
    }
}

/// The entries of the dictionary that names a database: none where no
/// database is named.
pub open spec fn database_entries(db: Option<Seq<char>>) -> Seq<(Seq<char>, Value)> {
    match db {
        Some(name) => seq![("db"@, Value::String(name))],
        None => Seq::empty(),
    }
}

/// The characters of a name, where there is one.
pub open spec fn name_of(db: Option<String>) -> Option<Seq<char>> {
    match db {
        Some(name) => Some(name@),
        None => None,
    }
}

/// The dictionary that names a database.
pub(crate) fn database_map(db: Option<String>) -> (r: BoltMap)
    ensures
        r@ == database_entries(name_of(db)),
{
    let mut map = BoltMap::new();
    match db {
        Some(name) => {
            proof {
                lemma_not_found(map@, "db"@);
            }
            map.insert("db".to_owned(), Bolt::String(name));
            assert(map@ =~= database_entries(Some(name@)));
        },
        None => {},
    }
    map
}

/// The request that opens a transaction. What it says beyond its tag is an
/// open dictionary: entries may be added, and what is not set is not
/// written.
#[derive(Debug, PartialEq)]
pub struct Begin {
    pub extra: BoltMap,
}

impl Begin {
    /// The fields of this request: the dictionary of what it says.
    pub open(crate) spec fn fields(&self) -> Seq<Value> {
        seq![Value::Dictionary(self.extra@)]
    }

    /// A request for a transaction on the database `db`, or on the default
    /// database where none is named.
    pub fn new(db: Option<String>) -> (r: Self)
        ensures
            r.extra@ == database_entries(name_of(db)),
    {
        Begin { extra: database_map(db) }
    }

    /// The bytes of this request: a structure with the tag `0x11` and one
    /// field. Fails with `TooLong` where a string, list or dictionary of the
    /// request is too long for a 32-bit length.
    pub fn to_bytes(&self) -> (r: Result<Vec<u8>, Error>)
        ensures
            wrote(r, message(TAG_BEGIN, self.fields())),
    {
        let mut fields: Vec<BoltRef<'_>> = Vec::new();
        fields.push(BoltRef::Dictionary(self.extra.as_ref()));
        assert(values_of(fields@) =~= self.fields());
        write_message(TAG_BEGIN, &fields)
    }
}

/// The request that runs a query. What it says beyond the query and its
/// parameters is an open dictionary: entries may be added, and what is not
/// set is not written.
#[derive(Debug, PartialEq)]
pub struct Run {
    pub query: String,
    pub params: BoltMap,
    pub extra: BoltMap,
}

impl Run {
    /// The fields of this request: the query, its parameters, and the
    /// dictionary of what else it says.
    pub open(crate) spec fn fields(&self) -> Seq<Value> {
        seq![
            Value::String(self.query@),
            Value::Dictionary(self.params@),
            Value::Dictionary(self.extra@),
        ]
    }

    /// A request to run `query` with the parameters `params` on the database
    /// `db`, or on the default database where none is named.
    pub fn new(db: Option<String>, query: String, params: BoltMap) -> (r: Self)
        ensures
            r.query == query,
            r.params == params,
            r.extra@ == database_entries(name_of(db)),
    {
        Run { query, params, extra: database_map(db) }
    }

    /// The bytes of this request: a structure with the tag `0x10` and three
    /// fields. Fails with `TooLong` where the query, a parameter or an entry
    /// of what else the request says is too long for a 32-bit length.
    pub fn to_bytes(&self) -> (r: Result<Vec<u8>, Error>)
        ensures
            wrote(r, message(TAG_RUN, self.fields())),
    {
        let mut fields: Vec<BoltRef<'_>> = Vec::new();
        fields.push(BoltRef::String(self.query.as_str()));
        fields.push(BoltRef::Dictionary(self.params.as_ref()));
        fields.push(BoltRef::Dictionary(self.extra.as_ref()));
        assert(values_of(fields@) =~= self.fields());
        write_message(TAG_RUN, &fields)
    }
}

/// The entries with which a client logs in by name and password: the
/// client's name, the scheme `basic`, the user and the password.
pub open spec fn login_entries(
    user_agent: Seq<char>,
    principal: Seq<char>,
    credentials: Seq<char>,
) -> Seq<(Seq<char>, Value)> {
    seq![
        ("user_agent"@, Value::String(user_agent)),
        ("scheme"@, Value::String("basic"@)),
        ("principal"@, Value::String(principal)),
        ("credentials"@, Value::String(credentials)),
    ]
}

/// The request that opens the session and offers the credentials. What it
/// says is an open dictionary: entries may be added, and what is not set is
/// not written.
#[derive(Debug, PartialEq)]
pub struct Hello {
    pub extra: BoltMap,
}

impl Hello {
    /// The fields of this request: the dictionary of what it says.
    pub open(crate) spec fn fields(&self) -> Seq<Value> {
        seq![Value::Dictionary(self.extra@)]
    }

    /// A request that offers the user `principal` with the password
    /// `credentials`.
    pub fn new(user_agent: String, principal: String, credentials: String) -> (r: Self)
        ensures
            r.extra@ == login_entries(user_agent@, principal@, credentials@),
    {
        proof {
            reveal_strlit("user_agent");
            reveal_strlit("scheme");
            reveal_strlit("principal");
            reveal_strlit("credentials");
            assert("user_agent"@.len() == 10);
            assert("scheme"@.len() == 6);
            assert("principal"@.len() == 9);
            assert("credentials"@.len() == 11);
        }
        let mut extra = BoltMap::new();
        proof {
            lemma_not_found(extra@, "user_agent"@);
        }
        extra.insert("user_agent".to_owned(), Bolt::String(user_agent));
        proof {
            assert(extra@ =~= seq![("user_agent"@, Value::String(user_agent@))]);
            lemma_not_found(extra@, "scheme"@);
        }
        extra.insert("scheme".to_owned(), Bolt::String("basic".to_owned()));
        proof {
            assert(extra@ =~= seq![
                ("user_agent"@, Value::String(user_agent@)),
                ("scheme"@, Value::String("basic"@)),
            ]);
            lemma_not_found(extra@, "principal"@);
        }
        extra.insert("principal".to_owned(), Bolt::String(principal));
        proof {
            assert(extra@ =~= seq![
                ("user_agent"@, Value::String(user_agent@)),
                ("scheme"@, Value::String("basic"@)),
                ("principal"@, Value::String(principal@)),
            ]);
            lemma_not_found(extra@, "credentials"@);
        }
        extra.insert("credentials".to_owned(), Bolt::String(credentials));
        assert(extra@ =~= login_entries(user_agent@, principal@, credentials@));
        Hello { extra }
    }

    /// The bytes of this request: a structure with the tag `0x01` and one
    /// field, the dictionary of what the request says. Fails with `TooLong`
    /// where a string, list or dictionary of it is too long for a 32-bit
    /// length.
    pub fn to_bytes(&self) -> (r: Result<Vec<u8>, Error>)
        ensures
            wrote(r, message(TAG_HELLO, self.fields())),
    {
        let mut fields: Vec<BoltRef<'_>> = Vec::new();
        fields.push(BoltRef::Dictionary(self.extra.as_ref()));
        assert(values_of(fields@) =~= self.fields());
        write_message(TAG_HELLO, &fields)
    }
}

} // verus!
