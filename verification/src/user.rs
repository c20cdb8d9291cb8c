//! The people the bot serves, and the stickers they hold.

use vstd::prelude::*;

verus! {

/// A sticker as the platform names it, with what is shown of it.
#[derive(Debug)]
pub struct Sticker {
    /// The platform's identifier of the sticker's file.
    pub file_id: String,
    /// The emoji that goes with the sticker.
    pub emoji: Option<String>,
    /// The name of the set the sticker belongs to.
    pub set_name: Option<String>,
}

/// A sticker as a plain value.
pub struct StickerView {
    pub file_id: Seq<char>,
    pub emoji: Option<Seq<char>>,
    pub set_name: Option<Seq<char>>,
}

/// The text of an optional string.
pub open spec fn text_of(s: Option<String>) -> Option<Seq<char>> {
    match s {
        Some(t) => Some(t@),
        None => None,
    }
}

impl View for Sticker {
    type V = StickerView;

    open spec fn view(&self) -> StickerView {
        StickerView {
            file_id: self.file_id@,
            emoji: text_of(self.emoji),
            set_name: text_of(self.set_name),
        }
    }
}

/// Somebody with an account on both platforms.
#[derive(Debug)]
pub struct User {
    /// The account on the platform the stickers come from.
    pub tele_id: i64,
    /// The account on the platform the stickers go to.
    pub discord_id: u64,
    /// The sticker sent last, if any.
    pub cur_sticker: Option<Sticker>,
}

/// A user as a plain value.
pub struct UserView {
    pub tele_id: i64,
    pub discord_id: u64,
    pub cur_sticker: Option<StickerView>,
}

/// The sticker a user holds, as a plain value.
pub open spec fn held(sticker: Option<Sticker>) -> Option<StickerView> {
    match sticker {
        Some(s) => Some(s@),
        None => None,
    }
}

impl View for User {
    type V = UserView;

    open spec fn view(&self) -> UserView {
        UserView {
            tele_id: self.tele_id,
            discord_id: self.discord_id,
            cur_sticker: held(self.cur_sticker),
        }
    }
}

impl User {
    /// A user with the two accounts, who holds no sticker yet.
    pub fn new(tele_id: &i64, discord_id: &u64) -> (user: Self)
        ensures
            user@ == (UserView { tele_id: *tele_id, discord_id: *discord_id, cur_sticker: None }),
    {
        User { tele_id: *tele_id, discord_id: *discord_id, cur_sticker: None }
    }
}

} // verus!
