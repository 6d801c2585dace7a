//! Sessions in a database: every message is a row that points at the one before it, and a name
//! points at the last one.
//!
//! The rows themselves are read and written elsewhere. What stands here is which row to read
//! next, what to write, and what the rows of a session amount to.
use vstd::prelude::*;

use crate::json::{invalid_type, invalid_type_text, Json, JsonV};
use crate::session::SessionError;
use crate::text::{
    concat2, concat3, decimal, decimal_text, ends_with, lemma_ends_with, opt_view, signed,
    signed_text, views,
};
use crate::tools::{ToolError, ToolErrorV};
use crate::types::{copy_messages, copy_opt, Message, MessageV, ToolDefinition, ToolDefinitionV};

verus! {

/// A row: the message, and the row before it.
pub type RowV = (MessageV, Option<i64>);

/// What the database holds.
#[verifier::ext_equal]
pub struct StoreV {
    pub rows: Map<i64, RowV>,
    /// The last row of each name.
    pub refs: Map<Seq<char>, i64>,
}

impl StoreV {
    /// A row is written, and the name points at it.
    pub open spec fn appended(
        self,
        id: i64,
        message: MessageV,
        prev: Option<i64>,
        name: Option<Seq<char>>,
    ) -> StoreV {
        StoreV {
            rows: self.rows.insert(id, (message, prev)),
            refs: match name {
                Some(name) => self.refs.insert(name, id),
                None => self.refs,
            },
        }
    }

    /// A name points at a row.
    pub open spec fn pinned(self, name: Seq<char>, tail: Option<i64>) -> StoreV {
        match tail {
            Some(tail) => StoreV { rows: self.rows, refs: self.refs.insert(name, tail) },
            None => self,
        }
    }
}

/// The rows that lead to `tail`, oldest first, hold the messages.
pub open spec fn is_chain(
    rows: Map<i64, RowV>,
    tail: Option<i64>,
    messages: Seq<MessageV>,
) -> bool
    decreases messages.len(),
{
    match tail {
        None => messages.len() == 0,
        Some(id) => {
            &&& messages.len() > 0
            &&& rows.contains_key(id)
            &&& rows[id].0 == messages.last()
            &&& is_chain(rows, rows[id].1, messages.drop_last())
        },
    }
}

/// A row that leads nowhere else is written: no chain that there was changes.
pub proof fn law_chains_stay(
    rows: Map<i64, RowV>,
    tail: Option<i64>,
    messages: Seq<MessageV>,
    id: i64,
    row: RowV,
)
    requires
        is_chain(rows, tail, messages),
        !rows.contains_key(id),
    ensures
        is_chain(rows.insert(id, row), tail, messages),
    decreases messages.len(),
{
    match tail {
        None => {},
        Some(at) => {
            law_chains_stay(rows, rows[at].1, messages.drop_last(), id, row);
        },
    }
}

/// A message that is written behind a chain is the last one of the longer chain: reading it
/// back gives what was there, and the message.
pub proof fn law_append_extends_the_chain(
    rows: Map<i64, RowV>,
    tail: Option<i64>,
    messages: Seq<MessageV>,
    id: i64,
    message: MessageV,
)
    requires
        is_chain(rows, tail, messages),
        !rows.contains_key(id),
    ensures
        is_chain(rows.insert(id, (message, tail)), Some(id), messages.push(message)),
{
    law_chains_stay(rows, tail, messages, id, (message, tail));
    assert(messages.push(message).drop_last() =~= messages);
}

/// A row leads to one chain only.
pub proof fn law_chain_is_unique(
    rows: Map<i64, RowV>,
    tail: Option<i64>,
    one: Seq<MessageV>,
    other: Seq<MessageV>,
)
    requires
        is_chain(rows, tail, one),
        is_chain(rows, tail, other),
    ensures
        one == other,
    decreases one.len(),
{
    match tail {
        None => {
            assert(one =~= other);
        },
        Some(id) => {
            law_chain_is_unique(rows, rows[id].1, one.drop_last(), other.drop_last());
            assert(one =~= one.drop_last().push(one.last()));
            assert(other =~= other.drop_last().push(other.last()));
        },
    }
}

/// Turns an error of the database into one of the session.
pub fn session_err(e: String) -> (r: SessionError)
    ensures
        r@ == e@,
{
    SessionError::Failed { message: e }
}

/// What a [`ChainLoader`] is.
#[verifier::ext_equal]
pub struct LoaderV {
    /// The row to read next.
    pub next: Option<i64>,
    /// What was read, oldest first.
    pub found: Seq<MessageV>,
}

impl LoaderV {
    /// Nothing was read yet.
    pub open spec fn start(tail: Option<i64>) -> LoaderV {
        LoaderV { next: tail, found: Seq::empty() }
    }

    /// A row was read.
    pub open spec fn read(self, row: RowV) -> LoaderV {
        LoaderV { next: row.1, found: seq![row.0] + self.found }
    }

    /// Rows were read, one after the other.
    pub open spec fn walk(self, rows: Map<i64, RowV>, steps: nat) -> LoaderV
        decreases steps,
    {
        match self.next {
            Some(id) if steps > 0 => self.read(rows[id]).walk(rows, (steps - 1) as nat),
            _ => self,
        }
    }
}

/// Reading row by row ends with the chain.
pub proof fn law_loading_gives_the_chain(
    rows: Map<i64, RowV>,
    tail: Option<i64>,
    messages: Seq<MessageV>,
)
    requires
        is_chain(rows, tail, messages),
    ensures
        LoaderV::start(tail).walk(rows, messages.len()) == (LoaderV {
            next: None,
            found: messages,
        }),
{
    lemma_walk(rows, LoaderV::start(tail), messages);
    assert(messages + Seq::empty() =~= messages);
}

/// A loader that walks a chain finds the messages of the chain, the first one first.
proof fn lemma_walk(rows: Map<i64, RowV>, loader: LoaderV, messages: Seq<MessageV>)
    requires
        is_chain(rows, loader.next, messages),
    ensures
        loader.walk(rows, messages.len()) == (LoaderV {
            next: None,
            found: messages + loader.found,
        }),
    decreases messages.len(),
{
    match loader.next {
        None => {
            assert(messages + loader.found =~= loader.found);
        },
        Some(id) => {
            let after = loader.read(rows[id]);
            let rest = messages.drop_last();
            lemma_walk(rows, after, rest);
            assert(rest + (seq![messages.last()] + loader.found) =~= messages + loader.found);
        },
    }
}

/// Reads a chain, newest row first.
#[derive(Debug, PartialEq)]
pub struct ChainLoader {
    next: Option<i64>,
    newest_first: Vec<Message>,
}

impl View for ChainLoader {
    type V = LoaderV;

    closed spec fn view(&self) -> LoaderV {
        LoaderV { next: self.next, found: views(self.newest_first@).reverse() }
    }
}

impl ChainLoader {
    /// Reads the chain that ends at a row.
    pub fn new(tail: Option<i64>) -> (r: ChainLoader)
        ensures
            r@ == LoaderV::start(tail),
    {
        let r = ChainLoader { next: tail, newest_first: Vec::new() };
        assert(r@.found =~= Seq::empty());
        r
    }

    /// The row to read next.
    pub fn wanted(&self) -> (r: Option<i64>)
        ensures
            r == self@.next,
    {
        self.next
    }

    /// Takes in what the row holds, or why it could not be read.
    pub fn read(&mut self, row: Result<(Message, Option<i64>), String>) -> (r: Result<
        (),
        SessionError,
    >)
        ensures
            match (row, r) {
                (Ok(row), Ok(_)) => final(self)@ == old(self)@.read((row.0@, row.1)),
                (Err(why), Err(e)) => e@ == why@ && final(self)@ == old(self)@,
                _ => false,
            },
    {
        match row {
            Ok((message, prev)) => {
                let ghost before = views(self.newest_first@);
                let ghost shown = message@;
                self.newest_first.push(message);
                self.next = prev;
                proof {
                    assert(views(self.newest_first@) =~= before.push(shown));
                    assert(self@.found =~= seq![shown] + before.reverse());
                }
                Ok(())
            },
            Err(why) => Err(session_err(why)),
        }
    }

    /// What was read, oldest first.
    pub fn finish(self) -> (r: Vec<Message>)
        ensures
            views(r@) == self@.found,
    {
        let ghost all = self@.found;
        let mut rest = self.newest_first;
        let mut out: Vec<Message> = Vec::new();
        let ghost total = rest@.len();
        assert(views(out@) =~= all.take(0));
        while rest.len() > 0
            invariant
                all == views(self.newest_first@).reverse(),
                total == self.newest_first@.len(),
                rest@.len() <= total,
                rest@ == self.newest_first@.take(rest@.len() as int),
                views(out@) == all.take(total - rest@.len()),
            decreases rest@.len(),
        {
            let ghost n = rest@.len() as int;
            match rest.pop() {
                Some(message) => {
                    let ghost before = views(out@);
                    let ghost shown = message@;
                    out.push(message);
                    proof {
                        assert(shown == all[total - n]);
                        assert(views(out@) =~= before.push(shown));
                        assert(all.take(total - n + 1) =~= all.take(total - n).push(shown));
                        assert(rest@ =~= self.newest_first@.take(n - 1));
                    }
                },
                None => {},
            }
        }
        assert(all.take(total as int) =~= all);
        out
    }
}

/// What a [`SqliteSession`] is.
#[verifier::ext_equal]
pub struct SqliteV {
    pub ref_name: Option<Seq<char>>,
    pub tail_id: Option<i64>,
    pub messages: Seq<MessageV>,
}

impl SqliteV {
    /// A row was written for a message.
    pub open spec fn appended(self, id: i64, message: MessageV) -> SqliteV {
        SqliteV {
            ref_name: self.ref_name,
            tail_id: Some(id),
            messages: self.messages.push(message),
        }
    }

    /// The session under another name.
    pub open spec fn forked(self, name: Seq<char>) -> SqliteV {
        SqliteV { ref_name: Some(name), tail_id: self.tail_id, messages: self.messages }
    }

    /// The database holds the session: its rows lead to its last one, to which its name points.
    pub open spec fn backed(self, store: StoreV) -> bool {
        &&& is_chain(store.rows, self.tail_id, self.messages)
        &&& match (self.ref_name, self.tail_id) {
            (Some(name), Some(tail)) => store.refs.contains_key(name) && store.refs[name] == tail,
            _ => true,
        }
    }
}

/// What is said where no session of that name was kept.
pub open spec fn no_ref(name: Seq<char>) -> Seq<char> {
    "ref not found: "@ + name
}

/// The last row of a name, given what the database says of it.
pub fn found_ref(ref_name: &str, row: Result<Option<i64>, String>) -> (r: Result<i64, SessionError>)
    ensures
        match (row, r) {
            (Ok(Some(tail)), Ok(t)) => t == tail,
            (Ok(None), Err(e)) => e@ == no_ref(ref_name@),
            (Err(why), Err(e)) => e@ == why@,
            _ => false,
        },
{
    match row {
        Ok(Some(tail)) => Ok(tail),
        Ok(None) => Err(SessionError::Failed { message: concat2("ref not found: ", ref_name) }),
        Err(why) => Err(session_err(why)),
    }
}

/// A session that a database keeps, with what was said in it at hand.
#[derive(Debug, PartialEq)]
pub struct SqliteSession {
    ref_name: Option<String>,
    tail_id: Option<i64>,
    messages: Vec<Message>,
}

impl View for SqliteSession {
    type V = SqliteV;

    closed spec fn view(&self) -> SqliteV {
        SqliteV {
            ref_name: opt_view(self.ref_name),
            tail_id: self.tail_id,
            messages: views(self.messages@),
        }
    }
}

impl SqliteSession {
    /// The session of a name, given its last row and what its rows hold.
    pub fn new(ref_name: &str, tail_id: Option<i64>, messages: Vec<Message>) -> (r: SqliteSession)
        ensures
            r@ == (SqliteV { ref_name: Some(ref_name@), tail_id, messages: views(messages@) }),
    {
        SqliteSession { ref_name: Some(ref_name.to_owned()), tail_id, messages }
    }

    /// What was said.
    pub fn messages(&self) -> (r: &Vec<Message>)
        ensures
            views(r@) == self@.messages,
    {
        &self.messages
    }

    /// The last row, to which the next one points.
    pub fn tail_id(&self) -> (r: Option<i64>)
        ensures
            r == self@.tail_id,
    {
        self.tail_id
    }

    /// The name that points at the last row.
    pub fn ref_name(&self) -> (r: Option<String>)
        ensures
            opt_view(r) == self@.ref_name,
    {
        copy_opt(&self.ref_name)
    }

    /// The session under another name, and the row at which that name is to be pinned, where
    /// anything was said. Where nothing was, the name is written with the first message.
    pub fn fork(&self, ref_name: &str) -> (r: (Option<i64>, SqliteSession))
        ensures
            r.0 == self@.tail_id,
            r.1@ == self@.forked(ref_name@),
    {
        (
            self.tail_id,
            SqliteSession {
                ref_name: Some(ref_name.to_owned()),
                tail_id: self.tail_id,
                messages: copy_messages(&self.messages),
            },
        )
    }

    /// Takes in a message, given the id of the row that was written for it behind the last
    /// one, or why none was.
    pub fn append(&mut self, stored: Result<i64, String>, message: Message) -> (r: Result<
        (),
        SessionError,
    >)
        ensures
            match (stored, r) {
                (Ok(id), Ok(_)) => final(self)@ == old(self)@.appended(id, message@),
                (Err(why), Err(e)) => e@ == why@ && final(self)@ == old(self)@,
                _ => false,
            },
    {
        match stored {
            Ok(id) => {
                let ghost before = self@;
                let ghost shown = message@;
                self.tail_id = Some(id);
                self.messages.push(message);
                assert(self@.messages =~= before.messages.push(shown));
                Ok(())
            },
            Err(why) => Err(session_err(why)),
        }
    }
}

/// What a session says is kept: behind an append the database holds the longer session, and it
/// still holds every session of another name.
pub proof fn law_append_is_kept(
    store: StoreV,
    session: SqliteV,
    other: SqliteV,
    id: i64,
    message: MessageV,
)
    requires
        session.backed(store),
        other.backed(store),
        session.ref_name != other.ref_name,
        !store.rows.contains_key(id),
    ensures
        session.appended(id, message).backed(
            store.appended(id, message, session.tail_id, session.ref_name),
        ),
        other.backed(store.appended(id, message, session.tail_id, session.ref_name)),
{
    law_append_extends_the_chain(store.rows, session.tail_id, session.messages, id, message);
    law_chains_stay(
        store.rows,
        other.tail_id,
        other.messages,
        id,
        (message, session.tail_id),
    );
}

/// A fork shares what was said so far and is kept under its name: read back, it is the session
/// as it was.
pub proof fn law_fork_shares_the_history(store: StoreV, session: SqliteV, name: Seq<char>)
    requires
        session.backed(store),
    ensures
        session.forked(name).messages == session.messages,
        session.forked(name).backed(store.pinned(name, session.tail_id)),
        session.ref_name != Some(name) ==> session.backed(store.pinned(name, session.tail_id)),
{
}

/// What is read back of a kept session is what was said in it.
pub proof fn law_reload_gives_back_the_session(store: StoreV, session: SqliteV)
    requires
        session.backed(store),
    ensures
        LoaderV::start(session.tail_id).walk(store.rows, session.messages.len()) == (LoaderV {
            next: None,
            found: session.messages,
        }),
{
    law_loading_gives_the_chain(store.rows, session.tail_id, session.messages);
}

/// A range of messages, walked from the newer end to the older one.
#[derive(Debug, Clone, Copy, PartialEq, Eq)]
pub struct MessageRange {
    /// The newer row, from which the walk starts.
    pub tail_id: i64,
    /// The older row, at which it ends.
    pub head_id: i64,
}

/// The whole number that a value is, where it fits 64 bits with sign; or what is wrong with it.
pub open spec fn integer_in(v: JsonV) -> Result<int, Seq<char>> {
    match v {
        JsonV::UInt(n) => if n <= i64::MAX {
            Ok(n as int)
        } else {
            Err("invalid value: integer `"@ + decimal(n as nat) + "`, expected i64"@)
        },
        JsonV::NegInt(n) => Ok(n as int),
        other => Err(invalid_type(other, "i64"@)),
    }
}

/// The ends of the range that parameters name: by their names, or as a list of two.
pub open spec fn range_in(params: JsonV) -> Result<(int, int), Seq<char>> {
    match params {
        JsonV::Object(_) => match (params.get("head_id"@), params.get("tail_id"@)) {
            (Some(head), _) if integer_in(head) is Err => Err(integer_in(head)->Err_0),
            (_, Some(tail)) if integer_in(tail) is Err => Err(integer_in(tail)->Err_0),
            (_, None) => Err("missing field `tail_id`"@),
            (None, _) => Err("missing field `head_id`"@),
            (Some(head), Some(tail)) => Ok((integer_in(tail)->Ok_0, integer_in(head)->Ok_0)),
        },
        JsonV::Array(items) => if items.len() == 0 {
            Err("invalid length 0, expected struct MessageRange with 2 elements"@)
        } else if integer_in(items[0]) is Err {
            Err(integer_in(items[0])->Err_0)
        } else if items.len() == 1 {
            Err("invalid length 1, expected struct MessageRange with 2 elements"@)
        } else if integer_in(items[1]) is Err {
            Err(integer_in(items[1])->Err_0)
        } else if items.len() > 2 {
            Err(
                "invalid length "@ + decimal(items.len())
                    + ", expected fewer elements in array"@,
            )
        } else {
            Ok((integer_in(items[0])->Ok_0, integer_in(items[1])->Ok_0))
        },
        other => Err(invalid_type(other, "struct MessageRange"@)),
    }
}

/// The whole number that a value is.
fn read_integer(v: &Json) -> (r: Result<i64, String>)
    ensures
        match r {
            Ok(n) => integer_in(v@) == Ok::<int, Seq<char>>(n as int),
            Err(e) => integer_in(v@) == Err::<int, Seq<char>>(e@),
        },
{
    match v {
        Json::UInt(n) => {
            if *n <= 9223372036854775807u64 {
                Ok(*n as i64)
            } else {
                Err(
                    concat3(
                        "invalid value: integer `",
                        decimal_text(*n as u128).as_str(),
                        "`, expected i64",
                    ),
                )
            }
        },
        Json::NegInt(n) => Ok(*n),
        other => Err(invalid_type_text(other, "i64")),
    }
}

/// The ends of the range that parameters name.
fn read_range(params: &Json) -> (r: Result<(i64, i64), String>)
    ensures
        match r {
            Ok((tail, head)) => range_in(params@) == Ok::<(int, int), Seq<char>>(
                (tail as int, head as int),
            ),
            Err(e) => range_in(params@) == Err::<(int, int), Seq<char>>(e@),
        },
{
    if params.is_object() {
        let head = match params.get("head_id") {
            Some(v) => match read_integer(v) {
                Ok(n) => Some(n),
                Err(e) => {
                    return Err(e);
                },
            },
            None => None,
        };
        let tail = match params.get("tail_id") {
            Some(v) => match read_integer(v) {
                Ok(n) => Some(n),
                Err(e) => {
                    return Err(e);
                },
            },
            None => None,
        };
        return match (tail, head) {
            (None, _) => Err("missing field `tail_id`".to_owned()),
            (_, None) => Err("missing field `head_id`".to_owned()),
            (Some(tail), Some(head)) => Ok((tail, head)),
        };
    }
    let items = match params.items() {
        Some(items) => items,
        None => {
            return Err(invalid_type_text(params, "struct MessageRange"));
        },
    };
    let ghost all = views(items@);
    let n: usize = items.len();
    if n == 0 {
        return Err("invalid length 0, expected struct MessageRange with 2 elements".to_owned());
    }
    assert(all[0] == items@[0]@);
    let tail: i64 = match read_integer(&items[0]) {
        Ok(n) => n,
        Err(e) => {
            return Err(e);
        },
    };
    if n == 1 {
        return Err("invalid length 1, expected struct MessageRange with 2 elements".to_owned());
    }
    assert(all[1] == items@[1]@);
    let head: i64 = match read_integer(&items[1]) {
        Ok(n) => n,
        Err(e) => {
            return Err(e);
        },
    };
    if n > 2 {
        return Err(
            concat3(
                "invalid length ",
                decimal_text(n as u128).as_str(),
                ", expected fewer elements in array",
            ),
        );
    }
    Ok((tail, head))
}

/// What a [`RangeIter`] is.
#[verifier::ext_equal]
pub struct WalkV {
    /// The row to read next.
    pub current: Option<i64>,
    pub head: i64,
    /// What was read, newest first.
    pub found: Seq<(i64, MessageV)>,
}

impl WalkV {
    /// A row was read, or could not be: then the walk is over. It is over too where the row was
    /// the older end.
    pub open spec fn read(self, row: Option<RowV>) -> WalkV {
        match (self.current, row) {
            (Some(id), Some((message, prev))) => WalkV {
                current: if id == self.head {
                    None
                } else {
                    prev
                },
                head: self.head,
                found: self.found.push((id, message)),
            },
            _ => WalkV { current: None, head: self.head, found: self.found },
        }
    }

    /// Rows were read, one after the other.
    pub open spec fn walk(self, rows: Map<i64, RowV>, steps: nat) -> WalkV
        decreases steps,
    {
        match self.current {
            Some(id) if steps > 0 => self.read(
                if rows.contains_key(id) {
                    Some(rows[id])
                } else {
                    None
                },
            ).walk(rows, (steps - 1) as nat),
            _ => self,
        }
    }
}

impl MessageRange {
    /// Reads a range out of a tool's parameters.
    pub fn of(params: &Json) -> (r: Result<MessageRange, ToolError>)
        ensures
            match r {
                Ok(range) => range_in(params@) == Ok::<(int, int), Seq<char>>(
                    (range.tail_id as int, range.head_id as int),
                ),
                Err(e) => range_in(params@) is Err && e@ == ToolErrorV::Validation(
                    range_in(params@)->Err_0,
                ),
            },
    {
        match read_range(params) {
            Ok((tail_id, head_id)) => Ok(MessageRange { tail_id, head_id }),
            Err(e) => Err(ToolError::Validation(e)),
        }
    }

    /// What is said where the newer end cannot be found.
    pub open spec fn not_found(self, why: Seq<char>) -> Seq<char> {
        "card "@ + signed(self.tail_id as int) + (" not found: "@ + why)
    }

    /// Starts the walk, given whether there is a row at the newer end.
    pub fn iter(&self, there: Result<(), String>) -> (r: Result<RangeIter, ToolError>)
        ensures
            match (there, r) {
                (Ok(_), Ok(walk)) => walk@ == (WalkV {
                    current: Some(self.tail_id),
                    head: self.head_id,
                    found: Seq::empty(),
                }),
                (Err(why), Err(e)) => e@ == ToolErrorV::Execution(self.not_found(why@)),
                _ => false,
            },
    {
        match there {
            Ok(_) => {
                let walk = RangeIter {
                    current: Some(self.tail_id),
                    head: self.head_id,
                    found: Vec::new(),
                };
                assert(walk@.found =~= Seq::empty());
                Ok(walk)
            },
            Err(why) => {
                let number = signed_text(self.tail_id);
                let rest = concat2(" not found: ", why.as_str());
                Err(ToolError::Execution(concat3("card ", number.as_str(), rest.as_str())))
            },
        }
    }
}

/// Walks a range of rows.
#[derive(Debug, PartialEq)]
pub struct RangeIter {
    current: Option<i64>,
    head: i64,
    found: Vec<(i64, Message)>,
}

impl View for RangeIter {
    type V = WalkV;

    closed spec fn view(&self) -> WalkV {
        WalkV {
            current: self.current,
            head: self.head,
            found: Seq::new(self.found@.len(), |i: int| (self.found@[i].0, self.found@[i].1@)),
        }
    }
}

impl RangeIter {
    /// The row to read next.
    pub fn wanted(&self) -> (r: Option<i64>)
        ensures
            r == self@.current,
    {
        self.current
    }

    /// Takes in what the row holds, where it could be read.
    pub fn read(&mut self, row: Option<(Message, Option<i64>)>)
        ensures
            final(self)@ == old(self)@.read(
                match row {
                    Some(row) => Some((row.0@, row.1)),
                    None => None,
                },
            ),
    {
        let ghost before = self@;
        match (self.current, row) {
            (Some(id), Some((message, prev))) => {
                let ghost shown = message@;
                self.found.push((id, message));
                self.current = if id == self.head {
                    None
                } else {
                    prev
                };
                assert(self@.found =~= before.found.push((id, shown)));
            },
            _ => {
                self.current = None;
            },
        }
    }

    /// What was read, newest first.
    pub fn finish(self) -> (r: Vec<(i64, Message)>)
        ensures
            Seq::new(r@.len(), |i: int| (r@[i].0, r@[i].1@)) == self@.found,
    {
        self.found
    }
}

/// The rows `ids` follow one another from the newer to the older, the last of them without one
/// before it.
pub open spec fn is_path(rows: Map<i64, RowV>, ids: Seq<i64>) -> bool {
    &&& forall|i: int| 0 <= i < ids.len() ==> rows.contains_key(#[trigger] ids[i])
    &&& forall|i: int|
        0 <= i < ids.len() ==> rows[#[trigger] ids[i]].1 == if i + 1 < ids.len() {
            Some(ids[i + 1])
        } else {
            None
        }
}

/// A range holds the messages from the newer end to the older one, both of them among them, in
/// the order of the walk. Where the older end is not on the way, it holds everything down to
/// the first message.
pub proof fn law_range_is_inclusive(
    rows: Map<i64, RowV>,
    ids: Seq<i64>,
    head: i64,
    last: int,
)
    requires
        is_path(rows, ids),
        0 <= last < ids.len(),
        ids[last] == head || last == ids.len() - 1,
        forall|i: int| 0 <= i < last ==> #[trigger] ids[i] != head,
    ensures
        (WalkV { current: Some(ids[0]), head, found: Seq::empty() }).walk(
            rows,
            (last + 1) as nat,
        ) == (WalkV {
            current: None,
            head,
            found: Seq::new((last + 1) as nat, |i: int| (ids[i], rows[ids[i]].0)),
        }),
{
    lemma_range(rows, ids, head, last, 0, Seq::empty());
    assert(Seq::<(i64, MessageV)>::empty() + Seq::new(
        (last + 1 - 0) as nat,
        |i: int| (ids[0 + i], rows[ids[0 + i]].0),
    ) =~= Seq::new((last + 1) as nat, |i: int| (ids[i], rows[ids[i]].0)));
}

/// A walk along a path finds what stands between its ends.
#[verifier::spinoff_prover]
#[verifier::rlimit(60)]
proof fn lemma_range(
    rows: Map<i64, RowV>,
    ids: Seq<i64>,
    head: i64,
    last: int,
    at: int,
    found: Seq<(i64, MessageV)>,
)
    requires
        is_path(rows, ids),
        0 <= at <= last < ids.len(),
        ids[last] == head || last == ids.len() - 1,
        forall|i: int| 0 <= i < last ==> #[trigger] ids[i] != head,
    ensures
        (WalkV { current: Some(ids[at]), head, found }).walk(rows, (last + 1 - at) as nat) == (
        WalkV {
            current: None,
            head,
            found: found + Seq::new(
                (last + 1 - at) as nat,
                |i: int| (ids[at + i], rows[ids[at + i]].0),
            ),
        }),
    decreases last - at,
{
    let walk = WalkV { current: Some(ids[at]), head, found };
    let row = rows[ids[at]];
    let next = walk.read(Some(row));
    let rest = Seq::new((last + 1 - at) as nat, |i: int| (ids[at + i], rows[ids[at + i]].0));
    assert(rows.contains_key(ids[at]));
    assert(walk.walk(rows, (last + 1 - at) as nat) == next.walk(rows, (last - at) as nat));
    if at == last {
        assert(next.current is None);
        assert(next.found =~= found + rest);
    } else {
        assert(ids[at] != head);
        assert(next.current == Some(ids[at + 1]));
        lemma_range(rows, ids, head, last, at + 1, next.found);
        let tail = Seq::new(
            (last + 1 - (at + 1)) as nat,
            |i: int| (ids[at + 1 + i], rows[ids[at + 1 + i]].0),
        );
        assert(next.found + tail =~= found + rest);
    }
}

/// What a model is told of the tool that reads a range, given the schema of a range.
pub fn range_definition(parameters: Json) -> (r: ToolDefinition)
    ensures
        r@ == (ToolDefinitionV {
            name: "message_range"@,
            description:
                "Retrieve messages in a range between two IDs. returning all messages from new to old in the range inclusive of both endpoints."@,
            parameters: parameters@,
        }),
{
    ToolDefinition {
        name: "message_range".to_owned(),
        description: "Retrieve messages in a range between two IDs. returning all messages from new to old in the range inclusive of both endpoints.".to_owned(),
        parameters,
    }
}

/// A row that is written holds its message and the row before it, and the name that it was
/// written for points at it; no other row and no other name is touched.
pub proof fn law_writing_touches_one_row(
    store: StoreV,
    id: i64,
    message: MessageV,
    prev: Option<i64>,
    name: Seq<char>,
    other: i64,
    other_name: Seq<char>,
)
    ensures
        ({
            let after = store.appended(id, message, prev, Some(name));
            &&& after.rows.contains_key(id)
            &&& after.rows[id] == (message, prev)
            &&& after.refs.contains_key(name)
            &&& after.refs[name] == id
            &&& other != id ==> after.rows.contains_key(other) == store.rows.contains_key(other)
            &&& other != id && store.rows.contains_key(other) ==> after.rows[other]
                == store.rows[other]
            &&& other_name != name ==> after.refs.contains_key(other_name)
                == store.refs.contains_key(other_name)
            &&& other_name != name && store.refs.contains_key(other_name)
                ==> after.refs[other_name] == store.refs[other_name]
        }),
        ({
            let after = store.appended(id, message, prev, None);
            &&& after.rows.contains_key(id)
            &&& after.rows[id] == (message, prev)
            &&& after.refs == store.refs
        }),
{
}

/// A name that is pinned points at the row, whatever it pointed at; no row and no other name is
/// touched, and without a row nothing is.
pub proof fn law_pinning_touches_one_name(
    store: StoreV,
    name: Seq<char>,
    tail: i64,
    other: Seq<char>,
)
    ensures
        store.pinned(name, Some(tail)).refs.contains_key(name),
        store.pinned(name, Some(tail)).refs[name] == tail,
        store.pinned(name, Some(tail)).rows == store.rows,
        other != name ==> store.pinned(name, Some(tail)).refs.contains_key(other)
            == store.refs.contains_key(other),
        other != name && store.refs.contains_key(other) ==> store.pinned(
            name,
            Some(tail),
        ).refs[other] == store.refs[other],
        store.pinned(name, None) == store,
{
}

/// A session that is appended to holds the message last and ends at its row; a fork holds the
/// same under another name.
pub proof fn law_sessions_follow_their_rows(
    session: SqliteV,
    id: i64,
    message: MessageV,
    name: Seq<char>,
)
    ensures
        session.appended(id, message).messages == session.messages.push(message),
        session.appended(id, message).tail_id == Some(id),
        session.appended(id, message).ref_name == session.ref_name,
        session.forked(name).messages == session.messages,
        session.forked(name).tail_id == session.tail_id,
        session.forked(name).ref_name == Some(name),
        ends_with(no_ref(name), name),
{
    lemma_ends_with("ref not found: "@, name);
}

/// The ends of a range are read as whole numbers, each under its own name, or, of a list, the
/// newer one first. Nothing is read where one of them is missing or is no number that fits.
pub proof fn law_ranges_are_read(params: JsonV, tail: i64, head: i64)
    requires
        tail >= 0,
    ensures
        params is Object ==> (range_in(params) matches Ok(ends) ==> {
            &&& params.get("tail_id"@) matches Some(t)
            &&& integer_in(t) == Ok::<int, Seq<char>>(ends.0)
            &&& params.get("head_id"@) matches Some(h)
            &&& integer_in(h) == Ok::<int, Seq<char>>(ends.1)
        }),
        params is Object && params.get("tail_id"@) == Some(JsonV::UInt(tail as u64)) && params.get(
            "head_id"@,
        ) == Some(JsonV::NegInt(head)) ==> range_in(params) == Ok::<(int, int), Seq<char>>(
            (tail as int, head as int),
        ),
        params is Object && params.get("tail_id"@) is None ==> range_in(params) is Err,
        params is Object && params.get("head_id"@) is None ==> range_in(params) is Err,
        range_in(JsonV::Array(seq![JsonV::UInt(tail as u64), JsonV::NegInt(head)])) == Ok::<
            (int, int),
            Seq<char>,
        >((tail as int, head as int)),
        !(params is Object) && !(params is Array) ==> range_in(params) is Err,
{
}

/// A whole number is read as it is where it fits; nothing else is read as one.
pub proof fn law_integers_are_read(v: JsonV)
    ensures
        integer_in(v) matches Ok(n) ==> i64::MIN <= n <= i64::MAX,
        v matches JsonV::UInt(n) ==> (integer_in(v) is Ok <==> n <= i64::MAX),
        v matches JsonV::UInt(n) ==> (integer_in(v) matches Ok(m) ==> m == n),
        v matches JsonV::NegInt(n) ==> (integer_in(v) matches Ok(m) && m == n),
        !(v is UInt) && !(v is NegInt) ==> integer_in(v) is Err,
{
}

/// A row that is read is found behind the others under its number; the walk goes on at the row
/// before it, unless it was the older end. Where there is no row, the walk is over with what was
/// found.
pub proof fn law_walks_read_row_by_row(
    walk: WalkV,
    id: i64,
    message: MessageV,
    prev: Option<i64>,
)
    requires
        walk.current == Some(id),
    ensures
        walk.read(Some((message, prev))).found == walk.found.push((id, message)),
        walk.read(Some((message, prev))).head == walk.head,
        id != walk.head ==> walk.read(Some((message, prev))).current == prev,
        id == walk.head ==> walk.read(Some((message, prev))).current is None,
        walk.read(None).found == walk.found,
        walk.read(None).current is None,
{
}

/// What is said of a range that cannot be found names its newer end and ends with the reason.
pub proof fn law_missing_ranges_are_named(range: MessageRange, why: Seq<char>)
    ensures
        ("card "@ + signed(range.tail_id as int) + " not found: "@).is_prefix_of(
            range.not_found(why),
        ),
        ends_with(range.not_found(why), why),
{
    let lead = "card "@ + signed(range.tail_id as int) + " not found: "@;
    assert(range.not_found(why) =~= lead + why);
    assert(range.not_found(why).take(lead.len() as int) =~= lead);
    lemma_ends_with(lead, why);
}

/// What is said of a range that cannot be read names the end that is missing, or tells what is
/// wrong with the first end that is no number that fits; of a list it tells the length.
pub proof fn law_unreadable_ranges_are_told(params: JsonV, items: Seq<JsonV>)
    ensures
        params is Object && params.get("tail_id"@) is None && params.get("head_id"@) is None
            ==> range_in(params) == Err::<(int, int), Seq<char>>("missing field `tail_id`"@),
        params is Object && params.get("head_id"@) is None ==> (params.get("tail_id"@) matches Some(
            tail,
        ) ==> (integer_in(tail) is Ok ==> range_in(params) == Err::<(int, int), Seq<char>>(
            "missing field `head_id`"@,
        ))),
        params is Object && params.get("tail_id"@) is None ==> (params.get("head_id"@) matches Some(
            head,
        ) ==> (integer_in(head) is Ok ==> range_in(params) == Err::<(int, int), Seq<char>>(
            "missing field `tail_id`"@,
        ))),
        params is Object ==> (params.get("head_id"@) matches Some(head) ==> (integer_in(
            head,
        ) matches Err(why) ==> range_in(params) == Err::<(int, int), Seq<char>>(why))),
        params is Object && params.get("head_id"@) is None ==> (params.get("tail_id"@) matches Some(
            tail,
        ) ==> (integer_in(tail) matches Err(why) ==> range_in(params) == Err::<
            (int, int),
            Seq<char>,
        >(why))),
        items.len() > 0 ==> (integer_in(items[0]) matches Err(why) ==> range_in(
            JsonV::Array(items),
        ) == Err::<(int, int), Seq<char>>(why)),
        items.len() == 0 ==> range_in(JsonV::Array(items)) == Err::<(int, int), Seq<char>>(
            "invalid length 0, expected struct MessageRange with 2 elements"@,
        ),
        items.len() == 1 && integer_in(items[0]) is Ok ==> range_in(JsonV::Array(items)) == Err::<
            (int, int),
            Seq<char>,
        >("invalid length 1, expected struct MessageRange with 2 elements"@),
        items.len() > 2 && integer_in(items[0]) is Ok && integer_in(items[1]) is Ok ==> range_in(
            JsonV::Array(items),
        ) == Err::<(int, int), Seq<char>>(
            "invalid length "@ + decimal(items.len()) + ", expected fewer elements in array"@,
        ),
        !(params is Object) && !(params is Array) ==> range_in(params) == Err::<
            (int, int),
            Seq<char>,
        >(invalid_type(params, "struct MessageRange"@)),
{
}

} // verus!
