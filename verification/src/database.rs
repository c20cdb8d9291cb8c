//! Who is paired with whom, and who is about to be.

use vstd::prelude::*;
use crate::search::{first_index, lemma_first_index, lemma_no_first_index, without_first};
use crate::user::{Sticker, User, UserView};
use crate::users_file::{parse_users, read_users, users_text, write_users};

verus! {

/// A pairing that has been asked for and is not yet confirmed.
#[derive(Debug)]
pub struct DBVerification {
    /// The word that the user has to send from the other platform.
    pub magic: String,
    /// The account that asked.
    pub tele_id: i64,
    /// The tag of the account it wants to be paired with.
    pub discord_tag: String,
}

/// A pending pairing as a plain value.
pub struct VerificationView {
    pub magic: Seq<char>,
    pub tele_id: i64,
    pub discord_tag: Seq<char>,
}

impl View for DBVerification {
    type V = VerificationView;

    open spec fn view(&self) -> VerificationView {
        VerificationView { magic: self.magic@, tele_id: self.tele_id, discord_tag: self.discord_tag@ }
    }
}

/// The users and the pairings that wait for their confirmation.
#[derive(Debug)]
pub struct Database {
    users: Vec<User>,
    awaiting_reg: Vec<DBVerification>,
}

/// A database as a plain value.
pub struct DatabaseView {
    pub users: Seq<UserView>,
    pub awaiting: Seq<VerificationView>,
}

/// How an attempt to confirm a pairing ended.
#[derive(Clone, Copy, Debug, PartialEq, Eq, Structural)]
pub enum Verified {
    /// Nobody waits with this word.
    NotBegun,
    /// The word is known, but it was meant for another account.
    WrongTag,
    /// The two accounts are paired now.
    Registered,
}

/// The users with the given account on the first platform.
pub open spec fn has_tele(tele_id: i64) -> spec_fn(UserView) -> bool {
    |u: UserView| u.tele_id == tele_id
}

/// The users with the given account on the second platform.
pub open spec fn has_discord(discord_id: u64) -> spec_fn(UserView) -> bool {
    |u: UserView| u.discord_id == discord_id
}

/// The pending pairings with the given word.
pub open spec fn has_magic(magic: Seq<char>) -> spec_fn(VerificationView) -> bool {
    |v: VerificationView| v.magic == magic
}

/// What an attempt to confirm a pairing makes of the database, and how it
/// ends. The first pending pairing with the word decides: without one nothing
/// begins; with another tag nothing changes; with the right tag its account is
/// paired with `discord_id` as a new user, the last in the list, and the
/// pairing is no longer pending.
pub open spec fn spec_verify(
    db: DatabaseView,
    magic: Seq<char>,
    discord_id: u64,
    tag: Seq<char>,
) -> (DatabaseView, Verified) {
    match first_index(db.awaiting, has_magic(magic)) {
        None => (db, Verified::NotBegun),
        Some(i) => if db.awaiting[i].discord_tag != tag {
            (db, Verified::WrongTag)
        } else {
            (
                DatabaseView {
                    users: db.users.push(
                        UserView {
                            tele_id: db.awaiting[i].tele_id,
                            discord_id: discord_id,
                            cur_sticker: None,
                        },
                    ),
                    awaiting: db.awaiting.remove(i),
                },
                Verified::Registered,
            )
        },
    }
}

/// The users of a list as plain values.
pub open spec fn user_views(users: Seq<User>) -> Seq<UserView> {
    users.map_values(|u: User| u@)
}

/// The pending pairings of a list as plain values.
pub open spec fn verification_views(pending: Seq<DBVerification>) -> Seq<VerificationView> {
    pending.map_values(|v: DBVerification| v@)
}

impl View for Database {
    type V = DatabaseView;

    closed spec fn view(&self) -> DatabaseView {
        DatabaseView {
            users: user_views(self.users@),
            awaiting: verification_views(self.awaiting_reg@),
        }
    }
}

impl Database {
    /// A database without users.
    pub fn new() -> (db: Self)
        ensures
            db@.users == Seq::<UserView>::empty(),
            db@.awaiting == Seq::<VerificationView>::empty(),
    {
        let db = Database { users: Vec::new(), awaiting_reg: Vec::new() };
        assert(db@.users =~= Seq::<UserView>::empty());
        assert(db@.awaiting =~= Seq::<VerificationView>::empty());
        db
    }

    /// A database with the given users and nothing pending.
    pub fn with_users(users: Vec<User>) -> (db: Self)
        ensures
            db@.users == user_views(users@),
            db@.awaiting == Seq::<VerificationView>::empty(),
    {
        let db = Database { users, awaiting_reg: Vec::new() };
        assert(db@.awaiting =~= Seq::<VerificationView>::empty());
        db
    }

    /// The database that the text of the users' file stands for, with nothing
    /// pending. Every line of the text has to stand for a user.
    pub fn from_file(contents: &str) -> (db: Self)
        requires
            parse_users(contents@) is Some,
        ensures
            Some(db@.users) == parse_users(contents@),
            db@.awaiting == Seq::<VerificationView>::empty(),
    {
        match read_users(contents) {
            Some(users) => Database::with_users(users),
            None => unreached(),
        }
    }

    /// The database that the text of the users' file stands for, with nothing
    /// pending; none where some line of the text stands for no user.
    pub fn try_from_file(contents: &str) -> (db: Option<Self>)
        ensures
            match db {
                Some(d) => parse_users(contents@) == Some(d@.users) && d@.awaiting
                    == Seq::<VerificationView>::empty(),
                None => parse_users(contents@) is None,
            },
    {
        match read_users(contents) {
            Some(users) => Some(Database::with_users(users)),
            None => None,
        }
    }

    /// The text of the users' file: a line for each user, in their order.
    /// Stickers and pending pairings are not kept.
    pub fn save(&self) -> (text: String)
        ensures
            text@ == users_text(self@.users),
    {
        write_users(&self.users)
    }

    fn tele_position(&self, tele_id: i64) -> (found: Option<usize>)
        ensures
            first_index(self@.users, has_tele(tele_id)) == match found {
                Some(i) => Some(i as int),
                None => None,
            },
            found matches Some(i) ==> i < self.users@.len(),
    {
        let mut i: usize = 0;
        while i < self.users.len()
            invariant
                i <= self.users@.len(),
                forall|j: int| 0 <= j < i ==> !has_tele(tele_id)(#[trigger] self@.users[j]),
            decreases self.users@.len() - i,
        {
            if self.users[i].tele_id == tele_id {
                proof {
                    lemma_first_index(self@.users, has_tele(tele_id), i as int);
                }
                return Some(i);
            }
            i += 1;
        }
        proof {
            lemma_no_first_index(self@.users, has_tele(tele_id));
        }
        None
    }

    fn magic_position(&self, magic: &String) -> (found: Option<usize>)
        ensures
            first_index(self@.awaiting, has_magic(magic@)) == match found {
                Some(i) => Some(i as int),
                None => None,
            },
            found matches Some(i) ==> i < self.awaiting_reg@.len(),
    {
        let mut i: usize = 0;
        while i < self.awaiting_reg.len()
            invariant
                i <= self.awaiting_reg@.len(),
                forall|j: int| 0 <= j < i ==> !has_magic(magic@)(#[trigger] self@.awaiting[j]),
            decreases self.awaiting_reg@.len() - i,
        {
            if self.awaiting_reg[i].magic == *magic {
                proof {
                    lemma_first_index(self@.awaiting, has_magic(magic@), i as int);
                }
                return Some(i);
            }
            i += 1;
        }
        proof {
            lemma_no_first_index(self@.awaiting, has_magic(magic@));
        }
        None
    }

    /// The first user with the given account on the first platform.
    pub fn tele_id(&self, tele_id: &i64) -> (found: Option<&User>)
        ensures
            match first_index(self@.users, has_tele(*tele_id)) {
                Some(i) => found matches Some(user) && user@ == self@.users[i],
                None => found is None,
            },
    {
        match self.tele_position(*tele_id) {
            Some(i) => Some(&self.users[i]),
            None => None,
        }
    }

    /// The first user with the given account on the second platform.
    pub fn disc_id(&self, disc_id: &u64) -> (found: Option<&User>)
        ensures
            match first_index(self@.users, has_discord(*disc_id)) {
                Some(i) => found matches Some(user) && user@ == self@.users[i],
                None => found is None,
            },
    {
        let mut i: usize = 0;
        while i < self.users.len()
            invariant
                i <= self.users@.len(),
                forall|j: int| 0 <= j < i ==> !has_discord(*disc_id)(#[trigger] self@.users[j]),
            decreases self.users@.len() - i,
        {
            if self.users[i].discord_id == *disc_id {
                proof {
                    lemma_first_index(self@.users, has_discord(*disc_id), i as int);
                }
                return Some(&self.users[i]);
            }
            i += 1;
        }
        proof {
            lemma_no_first_index(self@.users, has_discord(*disc_id));
        }
        None
    }

    /// Removes the first user with the given account and says whether there
    /// was one.
    pub fn remove_user(&mut self, tele_id: &i64) -> (removed: bool)
        ensures
            removed == first_index(old(self)@.users, has_tele(*tele_id)) is Some,
            final(self)@.users == without_first(old(self)@.users, has_tele(*tele_id)),
            final(self)@.awaiting == old(self)@.awaiting,
    {
        match self.tele_position(*tele_id) {
            Some(i) => {
                self.users.remove(i);
                assert(final(self)@.users =~= old(self)@.users.remove(i as int));
                true
            },
            None => false,
        }
    }

    /// Gives the first user with the given account the sticker to hold, and
    /// says whether there is such a user.
    pub fn set_sticker(&mut self, tele_id: &i64, sticker: Sticker) -> (set: bool)
        ensures
            set == first_index(old(self)@.users, has_tele(*tele_id)) is Some,
            final(self)@.awaiting == old(self)@.awaiting,
            final(self)@.users == match first_index(old(self)@.users, has_tele(*tele_id)) {
                Some(i) => old(self)@.users.update(
                    i,
                    UserView { cur_sticker: Some(sticker@), ..old(self)@.users[i] },
                ),
                None => old(self)@.users,
            },
    {
        match self.tele_position(*tele_id) {
            Some(i) => {
                let user = User {
                    tele_id: self.users[i].tele_id,
                    discord_id: self.users[i].discord_id,
                    cur_sticker: Some(sticker),
                };
                self.users.set(i, user);
                assert(final(self)@.users =~= old(self)@.users.update(
                    i as int,
                    UserView { cur_sticker: Some(sticker@), ..old(self)@.users[i as int] },
                ));
                true
            },
            None => false,
        }
    }

    /// Notes a pairing that waits for its confirmation, behind those that
    /// wait already.
    pub fn verify_start(&mut self, ver: DBVerification)
        ensures
            final(self)@.awaiting == old(self)@.awaiting.push(ver@),
            final(self)@.users == old(self)@.users,
    {
        self.awaiting_reg.push(ver);
        assert(final(self)@.awaiting =~= old(self)@.awaiting.push(ver@));
    }

    /// Forgets the first pending pairing with the given word, if there is
    /// one.
    pub fn remove_verify(&mut self, magic: &str)
        ensures
            final(self)@.awaiting == without_first(old(self)@.awaiting, has_magic(magic@)),
            final(self)@.users == old(self)@.users,
    {
        let word = magic.to_owned();
        match self.magic_position(&word) {
            Some(i) => {
                self.awaiting_reg.remove(i);
                assert(final(self)@.awaiting =~= old(self)@.awaiting.remove(i as int));
            },
            None => {},
        }
    }

    /// Confirms the pairing that waits with the given word, for the account
    /// that sent it and the tag it sent it under.
    pub fn verify(&mut self, magic: &str, discord_id: &u64, tag: &str) -> (outcome: Verified)
        ensures
            (final(self)@, outcome) == spec_verify(old(self)@, magic@, *discord_id, tag@),
    {
        let word = magic.to_owned();
        let wanted = tag.to_owned();
        match self.magic_position(&word) {
            None => Verified::NotBegun,
            Some(i) => {
                if !(self.awaiting_reg[i].discord_tag == wanted) {
                    return Verified::WrongTag;
                }
                let tele_id = self.awaiting_reg[i].tele_id;
                self.users.push(User::new(&tele_id, discord_id));
                self.awaiting_reg.remove(i);
                assert(final(self)@.users =~= old(self)@.users.push(
                    UserView { tele_id: tele_id, discord_id: *discord_id, cur_sticker: None },
                ));
                assert(final(self)@.awaiting =~= old(self)@.awaiting.remove(i as int));
                Verified::Registered
            },
        }
    }
}

} // verus!
