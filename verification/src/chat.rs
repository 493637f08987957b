//! A chat room with a fixed number of seats: name checks, seat assignment,
//! the roster shown to newcomers, and which messages reach whom.
use vstd::prelude::*;
use vstd::utf8::*;
use crate::pattern::{compile, is_match, regex_compiles, regex_is_match};
use crate::text::{push_decimal, string_from_utf8, trim, trimmed, decimal};

verus! {

/// Number of seats in the room.
pub const USER_LIMIT: usize = 20;

/// Longest line, in bytes, that is relayed to the room.
pub const MAX_MESSAGE_BYTES: usize = 1500;

/// Names are 1 to 32 ASCII letters or digits.
pub const NAME_PATTERN: &'static str = "^[a-zA-Z0-9]{1,32}$";

/// A seat number, which is also the user's identity while seated.
pub type ID = u8;

/// Why a name was not seated.
#[derive(Clone, Copy, Debug)]
pub enum JoinError {
    InvalidName,
    Full,
}

#[derive(Debug)]
pub struct User {
    pub name: String,
    pub id: ID,
}

/// A line typed by a user, on its way to the others.
#[derive(Clone, Debug)]
pub struct UserMessage {
    pub from_id: ID,
    pub from_name: String,
    pub content: String,
}

/// A notice from the room about the user seated at `special`: sent to that
/// user alone when `only` holds, and to everybody else otherwise.
#[derive(Clone, Debug)]
pub struct SysMessage {
    pub special: ID,
    pub content: String,
    pub only: bool,
}

#[derive(Clone, Debug)]
pub enum Message {
    User(UserMessage),
    Sys(SysMessage),
}

/// The seats of the room.
pub struct UserList {
    users: Vec<Option<User>>,
}

impl View for UserList {
    /// The name seated at each seat, if any.
    type V = Seq<Option<Seq<char>>>;

    closed spec fn view(&self) -> Seq<Option<Seq<char>>> {
        self.users@.map_values(|u: Option<User>| match u {
            Some(u) => Some(u.name@),
            None => None,
        })
    }
}

/// The seats are all taken.
pub open spec fn all_taken(seats: Seq<Option<Seq<char>>>) -> bool {
    forall|j: int| 0 <= j < seats.len() ==> #[trigger] seats[j] is Some
}

/// What seating `name` does to a room whose seats were `before`: a name the
/// pattern refuses is turned away, a room with no free seat is full, and
/// otherwise the name takes the lowest free seat.
pub open spec fn seating(
    before: Seq<Option<Seq<char>>>,
    name: Seq<char>,
    result: Result<ID, JoinError>,
    after: Seq<Option<Seq<char>>>,
) -> bool {
    if !regex_is_match(NAME_PATTERN@, name) {
        result matches Err(JoinError::InvalidName) && after == before
    } else if all_taken(before) {
        result matches Err(JoinError::Full) && after == before
    } else {
        &&& result matches Ok(id)
        &&& {
            let id = result->Ok_0 as int;
            &&& 0 <= id < before.len()
            &&& before[id] is None
            &&& forall|j: int| 0 <= j < id ==> #[trigger] before[j] is Some
            &&& after == before.update(id, Some(name))
        }
    }
}

/// Names seated in the first `n` seats, in seat order, leaving out seat `to`.
pub open spec fn others_upto(seats: Seq<Option<Seq<char>>>, to: int, n: int) -> Seq<Seq<char>>
    decreases n,
{
    if n <= 0 {
        seq![]
    } else {
        let rest = others_upto(seats, to, n - 1);
        match seats[n - 1] {
            Some(name) => if n - 1 != to { rest.push(name) } else { rest },
            None => rest,
        }
    }
}

/// Names seated anywhere but seat `to`, in seat order.
pub open spec fn others(seats: Seq<Option<Seq<char>>>, to: int) -> Seq<Seq<char>> {
    others_upto(seats, to, seats.len() as int)
}

/// Names separated by ", ".
pub open spec fn comma_list(names: Seq<Seq<char>>) -> Seq<char>
    decreases names.len(),
{
    if names.len() == 0 {
        seq![]
    } else if names.len() == 1 {
        names[0]
    } else {
        comma_list(names.drop_last()) + ", "@ + names.last()
    }
}

/// The roster line for a newcomer who sees `names` already seated:
/// "a", "a and b", "a, b and c", ...
pub open spec fn roster(names: Seq<Seq<char>>) -> Seq<char> {
    if names.len() == 0 {
        "* you are the first ghoulie\r\n"@
    } else if names.len() == 1 {
        "* current ghouls: "@ + names[0] + "\r\n"@
    } else {
        "* current ghouls: "@ + comma_list(names.drop_last()) + " and "@ + names.last() + "\r\n"@
    }
}

impl UserList {
    /// Every seat index is a valid `ID` and each seated user carries its seat number.
    pub closed spec fn wf(&self) -> bool {
        &&& self.users@.len() == USER_LIMIT
        &&& forall|i: int| 0 <= i < self.users@.len() ==>
            (#[trigger] self.users@[i] matches Some(u) ==> u.id == i && regex_is_match(NAME_PATTERN@, u.name@))
    }

    /// The users in their seats.
    pub closed spec fn slots(&self) -> Seq<Option<User>> {
        self.users@
    }

    /// What every room reached from `new` through `insert`, `try_insert` and
    /// `remove` holds: twenty seats, each seated user carries its seat
    /// number, and each seated name is one the name pattern accepts.
    pub proof fn lemma_wf(&self)
        requires
            self.wf(),
        ensures
            self@.len() == USER_LIMIT,
            self.slots().len() == USER_LIMIT,
            forall|i: int| 0 <= i < USER_LIMIT ==> (#[trigger] self.slots()[i] is None <==> self@[i] is None),
            forall|i: int| 0 <= i < USER_LIMIT ==>
                (#[trigger] self.slots()[i] matches Some(u) ==> {
                    &&& u.id == i
                    &&& self@[i] == Some(u.name@)
                    &&& regex_is_match(NAME_PATTERN@, u.name@)
                }),
    {
        assert forall|i: int| 0 <= i < USER_LIMIT implies (#[trigger] self.slots()[i] is None <==> self@[i] is None) by {
            assert(self@[i] == match self.users@[i] {
                Some(u) => Some(u.name@),
                None => None::<Seq<char>>,
            });
        }
        assert forall|i: int| 0 <= i < USER_LIMIT implies (#[trigger] self.slots()[i] matches Some(u) ==> {
            &&& u.id == i
            &&& self@[i] == Some(u.name@)
            &&& regex_is_match(NAME_PATTERN@, u.name@)
        }) by {
            assert(self@[i] == match self.users@[i] {
                Some(u) => Some(u.name@),
                None => None::<Seq<char>>,
            });
        }
    }

    /// An empty room.
    pub fn new() -> (r: UserList)
        ensures
            r.wf(),
            r@ == Seq::new(USER_LIMIT as nat, |i: int| None::<Seq<char>>),
    {
        let mut users: Vec<Option<User>> = Vec::new();
        for i in 0..USER_LIMIT
            invariant
                users@.len() == i,
                forall|j: int| 0 <= j < i ==> #[trigger] users@[j] is None,
        {
            users.push(None);
        }
        let r = UserList { users };
        assert(r@ =~= Seq::new(USER_LIMIT as nat, |i: int| None::<Seq<char>>));
        r
    }

    /// Seats `name` at the lowest free seat when the name pattern accepts it.
    /// The pattern is compiled on each call and must compile.
    pub fn insert(&mut self, name: String) -> (r: Result<ID, JoinError>)
        requires
            old(self).wf(),
            regex_compiles(NAME_PATTERN@),
        ensures
            final(self).wf(),
            seating(old(self)@, name@, r, final(self)@),
    {
        let re = match compile(NAME_PATTERN) {
            Ok(re) => re,
            Err(_) => {
                proof {
                    assert(false);
                }
                return Err(JoinError::InvalidName);
            },
        };
        if !is_match(&re, name.as_str()) {
            return Err(JoinError::InvalidName);
        }
        let mut idx: Option<ID> = None;
        let mut i: usize = 0;
        while i < self.users.len()
            invariant_except_break
                idx is None,
            invariant
                self.wf(),
                i <= self.users@.len(),
                forall|j: int| 0 <= j < i ==> #[trigger] self@[j] is Some,
            ensures
                idx matches Some(id) ==> id as usize == i && i < self.users@.len() && self@[i as int] is None,
                idx is None ==> i == self.users@.len(),
            decreases self.users@.len() - i,
        {
            if self.users[i].is_none() {
                idx = Some(i as ID);
                proof {
                    assert(self@[i as int] is None);
                }
                break;
            }
            proof {
                assert(self@[i as int] is Some);
            }
            i = i + 1;
        }
        match idx {
            Some(id) => {
                assert(id as usize == i);
                let ghost before = self@;
                let user = Some(User { name, id });
                self.users.set(id as usize, user);
                proof {
                    assert(self@ =~= before.update(id as int, Some(name@)));
                }
                Ok(id)
            },
            None => {
                assert(all_taken(self@));
                Err(JoinError::Full)
            },
        }
    }

    /// Like `insert`, but answers `None`, and leaves the room as it was, when
    /// the name pattern does not compile.
    pub fn try_insert(&mut self, name: String) -> (r: Option<Result<ID, JoinError>>)
        requires
            old(self).wf(),
        ensures
            final(self).wf(),
            r is None <==> !regex_compiles(NAME_PATTERN@),
            r is None ==> final(self)@ == old(self)@,
            r matches Some(res) ==> seating(old(self)@, name@, res, final(self)@),
    {
        match compile(NAME_PATTERN) {
            Ok(_) => Some(self.insert(name)),
            Err(_) => None,
        }
    }

    /// The roster line shown to the user seated at `to`: everybody else in
    /// seat order.
    pub fn list_users(&self, to: ID) -> (r: String)
        requires
            self.wf(),
        ensures
            r@ == roster(others(self@, to as int)),
    {
        let ghost seats = self@;
        let mut names: Vec<String> = Vec::new();
        for i in 0..USER_LIMIT
            invariant
                self.wf(),
                seats == self@,
                names@.len() == others_upto(seats, to as int, i as int).len(),
                forall|k: int| 0 <= k < names@.len() ==>
                    #[trigger] names@[k]@ == others_upto(seats, to as int, i as int)[k],
        {
            proof {
                assert(seats[i as int] == match self.users@[i as int] {
                    Some(u) => Some(u.name@),
                    None => None::<Seq<char>>,
                });
            }
            if i != to as usize {
                match &self.users[i] {
                    Some(user) => {
                        names.push(user.name.clone());
                    },
                    None => {},
                }
            }
        }
        let ghost listed = others(seats, to as int);
        assert(self.users@.len() == USER_LIMIT);
        assert(seats.len() == USER_LIMIT);
        let n = names.len();
        if n == 0 {
            let mut out = String::new();
            out.append("* you are the first ghoulie\r\n");
            return out;
        }
        let mut out = String::new();
        out.append("* current ghouls: ");
        out.append(names[0].as_str());
        assert(comma_list(listed.take(1)) == listed[0]);
        let mut k: usize = 1;
        while k + 1 < n
            invariant
                1 <= k,
                k < n || n == 1,
                k <= n,
                n == names@.len(),
                n == listed.len(),
                forall|j: int| 0 <= j < n ==> #[trigger] names@[j]@ == listed[j],
                out@ == "* current ghouls: "@ + comma_list(listed.take(k as int)),
            decreases n - k,
        {
            out.append(", ");
            out.append(names[k].as_str());
            assert(listed.take(k as int + 1).drop_last() =~= listed.take(k as int));
            k = k + 1;
        }
        if n > 1 {
            out.append(" and ");
            out.append(names[n - 1].as_str());
            assert(listed.take(k as int) =~= listed.drop_last());
        }
        out.append("\r\n");
        assert(out@ =~= roster(listed));
        out
    }

    /// Frees seat `id`.
    pub fn remove(&mut self, id: ID)
        requires
            old(self).wf(),
            (id as usize) < USER_LIMIT,
        ensures
            final(self).wf(),
            final(self)@ == old(self)@.update(id as int, None),
    {
        let ghost before = self@;
        self.users.set(id as usize, None);
        assert(self@ =~= before.update(id as int, None));
    }
}

/// What a session does after a read from its user into `buf`.
#[derive(Debug)]
pub enum ChatStep {
    /// Nothing was read: the user is gone.
    Leave,
    /// Send this message to the room.
    Broadcast(Message),
    /// The line is not valid UTF-8; the session stops on the spot, without
    /// freeing its seat or telling the room.
    Abort,
}

/// The greeting sent to every new connection.
pub fn welcome() -> (r: String)
    ensures
        r@ == "* welcome to ghoul chat... who are you ?\r\n"@,
{
    String::from_str("* welcome to ghoul chat... who are you ?\r\n")
}

/// The name a newcomer typed: the line decoded as UTF-8 and trimmed; `None`
/// when the bytes are not UTF-8, where the session ends on the spot.
pub fn read_name(bytes: Vec<u8>) -> (r: Option<String>)
    ensures
        r is Some <==> valid_utf8(bytes@),
        r matches Some(n) ==> n@ == trimmed(decode_utf8(bytes@)),
{
    match string_from_utf8(bytes) {
        Some(line) => Some(trim(line.as_str()).to_owned()),
        None => None,
    }
}

/// The line sent to a newcomer who was not seated.
pub fn refusal(e: JoinError) -> (r: String)
    ensures
        e is Full ==> r@ == "* ghoul chat is full :(\r\n"@,
        e is InvalidName ==> r@ == "* invalid name, valid names are 1-32 alphanumeric characters\r\n"@,
{
    match e {
        JoinError::Full => String::from_str("* ghoul chat is full :(\r\n"),
        JoinError::InvalidName => String::from_str(
            "* invalid name, valid names are 1-32 alphanumeric characters\r\n",
        ),
    }
}

/// The notice to the others that `name` took seat `id`.
pub fn arrival(id: ID, name: &str) -> (m: SysMessage)
    ensures
        m.special == id,
        !m.only,
        m.content@ == "* "@ + name@ + " has arrived !\r\n"@,
{
    let mut out = String::new();
    out.append("* ");
    out.append(name);
    out.append(" has arrived !\r\n");
    SysMessage { special: id, content: out, only: false }
}

/// The notice to the others that `name` left seat `id`.
pub fn departure(id: ID, name: &str) -> (m: SysMessage)
    ensures
        m.special == id,
        !m.only,
        m.content@ == "* "@ + name@ + " has left the locale\r\n"@,
{
    let mut out = String::new();
    out.append("* ");
    out.append(name);
    out.append(" has left the locale\r\n");
    SysMessage { special: id, content: out, only: false }
}

/// Decides what to do with the bytes a read left in `buf` for the user
/// `name` at seat `me`. An empty buffer means the user left. A line longer
/// than `MAX_MESSAGE_BYTES` earns the sender alone a warning and stays in
/// the buffer; any other line goes to the room and the buffer is emptied.
pub fn after_read(me: ID, name: &String, buf: &mut Vec<u8>) -> (r: ChatStep)
    ensures
        old(buf)@.len() == 0 ==> r is Leave && final(buf)@ == old(buf)@,
        old(buf)@.len() > MAX_MESSAGE_BYTES ==> {
            &&& final(buf)@ == old(buf)@
            &&& r matches ChatStep::Broadcast(Message::Sys(m))
            &&& m.special == me
            &&& m.only
            &&& m.content@ == "that message has "@ + decimal(old(buf)@.len()) + " characters which is more than 1500\r\n"@
        },
        0 < old(buf)@.len() <= MAX_MESSAGE_BYTES ==> {
            &&& final(buf)@.len() == 0
            &&& !valid_utf8(old(buf)@) ==> r is Abort
            &&& valid_utf8(old(buf)@) ==> {
                &&& r matches ChatStep::Broadcast(Message::User(m))
                &&& m.from_id == me
                &&& m.from_name@ == name@
                &&& m.content@ == decode_utf8(old(buf)@)
            }
        },
{
    if buf.len() == 0 {
        return ChatStep::Leave;
    }
    if buf.len() > MAX_MESSAGE_BYTES {
        let mut out = String::new();
        out.append("that message has ");
        push_decimal(buf.len(), &mut out);
        out.append(" characters which is more than 1500\r\n");
        let warning = SysMessage { special: me, content: out, only: true };
        return ChatStep::Broadcast(Message::Sys(warning));
    }
    let mut line: Vec<u8> = Vec::new();
    std::mem::swap(buf, &mut line);
    match string_from_utf8(line) {
        Some(content) => {
            let m = UserMessage { from_id: me, from_name: name.clone(), content };
            ChatStep::Broadcast(Message::User(m))
        },
        None => ChatStep::Abort,
    }
}

/// What the session of the user at seat `me` writes to its user when `msg`
/// goes through the room: another user's line, prefixed with that user's
/// name; a notice for `me` alone; a notice about someone else. Nothing
/// otherwise.
pub fn delivery(me: ID, msg: &Message) -> (r: Option<String>)
    ensures
        match msg {
            Message::User(m) => if m.from_id != me {
                r matches Some(s) && s@ == "["@ + m.from_name@ + "] "@ + m.content@
            } else {
                r is None
            },
            Message::Sys(m) => if (m.only && m.special == me) || (!m.only && m.special != me) {
                r matches Some(s) && s@ == m.content@
            } else {
                r is None
            },
        },
{
    match msg {
        Message::User(m) => {
            if m.from_id != me {
                let mut out = String::new();
                out.append("[");
                out.append(m.from_name.as_str());
                out.append("] ");
                out.append(m.content.as_str());
                Some(out)
            } else {
                None
            }
        },
        Message::Sys(m) => {
            if m.only {
                if m.special == me {
                    Some(m.content.clone())
                } else {
                    None
                }
            } else {
                if m.special != me {
                    Some(m.content.clone())
                } else {
                    None
                }
            }
        },
    }
}

proof fn lemma_others_upto_lists(seats: Seq<Option<Seq<char>>>, to: int, n: int, k: int)
    requires
        0 <= k < n <= seats.len(),
        k != to,
        seats[k] is Some,
    ensures
        others_upto(seats, to, n).contains(seats[k]->Some_0),
    decreases n,
{
    let rest = others_upto(seats, to, n - 1);
    if k == n - 1 {
        assert(others_upto(seats, to, n) == rest.push(seats[k]->Some_0));
        assert(others_upto(seats, to, n)[rest.len() as int] == seats[k]->Some_0);
    } else {
        lemma_others_upto_lists(seats, to, n - 1, k);
        let i = choose|i: int| 0 <= i < rest.len() && rest[i] == seats[k]->Some_0;
        match seats[n - 1] {
            Some(name) => if n - 1 != to {
                assert(others_upto(seats, to, n)[i] == seats[k]->Some_0);
            },
            None => {},
        }
    }
}

/// Once seated, a user appears in the roster that every other seat is shown.
pub proof fn law_seated_user_is_listed(
    before: Seq<Option<Seq<char>>>,
    name: Seq<char>,
    id: ID,
    after: Seq<Option<Seq<char>>>,
    to: ID,
)
    requires
        seating(before, name, Ok(id), after),
        to != id,
    ensures
        others(after, to as int).contains(name),
{
    lemma_others_upto_lists(after, to as int, after.len() as int, id as int);
}

/// How seating answers, told by the name and the free seats alone: a name
/// the pattern refuses is refused and nothing changes; an accepted name is
/// seated whenever some seat is free, at the lowest free seat; and the room
/// is reported full exactly when the name is accepted and no seat is free.
pub proof fn law_seating_outcome(
    before: Seq<Option<Seq<char>>>,
    name: Seq<char>,
    result: Result<ID, JoinError>,
    after: Seq<Option<Seq<char>>>,
)
    requires
        seating(before, name, result, after),
    ensures
        result matches Err(JoinError::InvalidName) <==> !regex_is_match(NAME_PATTERN@, name),
        result matches Err(JoinError::Full) <==> (regex_is_match(NAME_PATTERN@, name) && forall|j: int|
            0 <= j < before.len() ==> (#[trigger] before[j]) is Some),
        regex_is_match(NAME_PATTERN@, name) && (exists|j: int| 0 <= j < before.len() && (#[trigger] before[j]) is None)
            ==> {
            &&& result matches Ok(id)
            &&& 0 <= id < before.len()
            &&& before[id as int] is None
            &&& forall|k: int| 0 <= k < id ==> (#[trigger] before[k]) is Some
            &&& after == before.update(id as int, Some(name))
        },
        result is Err ==> after == before,
{
    if regex_is_match(NAME_PATTERN@, name) && (exists|j: int| 0 <= j < before.len() && (#[trigger] before[j]) is None) {
        let j = choose|j: int| 0 <= j < before.len() && (#[trigger] before[j]) is None;
        assert(!all_taken(before));
    }
    if regex_is_match(NAME_PATTERN@, name) && !all_taken(before) {
        let id = result->Ok_0 as int;
        assert(before[id] is None);
    }
}

/// Freeing the seat a name was just given restores the seats as they were.
pub proof fn law_remove_undoes_insert(
    before: Seq<Option<Seq<char>>>,
    name: Seq<char>,
    id: ID,
    after: Seq<Option<Seq<char>>>,
)
    requires
        seating(before, name, Ok(id), after),
    ensures
        after.update(id as int, None) == before,
{
    assert(after.update(id as int, None) =~= before);
}

/// A freed seat is taken again before any higher one: after seat `id` is
/// freed, the next name that is seated gets seat `id` or a lower one.
pub proof fn law_freed_seat_is_reused(
    before: Seq<Option<Seq<char>>>,
    id: ID,
    name: Seq<char>,
    seat: ID,
    after: Seq<Option<Seq<char>>>,
)
    requires
        (id as int) < before.len(),
        seating(before.update(id as int, None), name, Ok(seat), after),
    ensures
        seat <= id,
{
    let freed = before.update(id as int, None);
    if seat > id {
        assert(freed[id as int] is Some);
    }
}

} // verus!
