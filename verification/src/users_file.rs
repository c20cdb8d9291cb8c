//! The file that keeps the users: one line for each, the two accounts in
//! decimal with a colon between them.

use vstd::prelude::*;
use vstd::string::StringExecFns;
use crate::text::{
    chars_of, decimal, is_digit, lemma_decimal_reads_back, lemma_i64_round_trip,
    lemma_split_nonempty, lemma_u64_round_trip, parse_i64_text, parse_u64_text, push_decimal,
    push_signed_decimal, read_i64, read_u64, signed_decimal, split, split_ranges,
};
use crate::user::{User, UserView};

verus! {

/// A piece without the carriage return at its end, if it has one.
pub open spec fn without_cr(piece: Seq<char>) -> Seq<char> {
    if piece.len() > 0 && piece.last() == '\r' {
        piece.drop_last()
    } else {
        piece
    }
}

/// The lines of a text. A line ends with a line feed, which is not part of
/// it, nor is a carriage return just before it; what follows the last line
/// feed is a line too, unless it is empty.
pub open spec fn lines_of(text: Seq<char>) -> Seq<Seq<char>> {
    let pieces = split(text, '\n');
    let count = if pieces.last().len() == 0 {
        pieces.len() - 1
    } else {
        pieces.len() as int
    };
    Seq::new(
        count as nat,
        |k: int|
            if k < pieces.len() - 1 {
                without_cr(pieces[k])
            } else {
                pieces[k]
            },
    )
}

/// The user that a line stands for: the first account before the first
/// colon, the second behind it, up to the next colon if there is one.
pub open spec fn parse_line(line: Seq<char>) -> Option<UserView> {
    let fields = split(line, ':');
    if fields.len() < 2 {
        None
    } else {
        match (parse_i64_text(fields[0]), parse_u64_text(fields[1])) {
            (Some(tele_id), Some(discord_id)) => Some(
                UserView { tele_id, discord_id, cur_sticker: None },
            ),
            _ => None,
        }
    }
}

/// The users that a text stands for, line by line; none where some line
/// stands for no user.
pub open spec fn parse_users(text: Seq<char>) -> Option<Seq<UserView>> {
    let lines = lines_of(text);
    if forall|k: int| 0 <= k < lines.len() ==> parse_line(#[trigger] lines[k]) is Some {
        Some(Seq::new(lines.len(), |k: int| parse_line(lines[k])->0))
    } else {
        None
    }
}

/// The line of a user, without the line feed.
pub open spec fn user_line(user: UserView) -> Seq<char> {
    signed_decimal(user.tele_id as int) + seq![':'] + decimal(user.discord_id as nat)
}

/// The text that stands for the users: their lines, each with a line feed.
pub open spec fn users_text(users: Seq<UserView>) -> Seq<char>
    decreases users.len(),
{
    if users.len() == 0 {
        Seq::<char>::empty()
    } else {
        users_text(users.drop_last()) + user_line(users.last()) + seq!['\n']
    }
}

/// A user as the file keeps it: without the sticker.
pub open spec fn kept(user: UserView) -> UserView {
    UserView { tele_id: user.tele_id, discord_id: user.discord_id, cur_sticker: None }
}

/// Reads the users from the text of their file. The result is `None` exactly
/// where some line stands for no user.
pub fn read_users(contents: &str) -> (users: Option<Vec<User>>)
    ensures
        match users {
            Some(list) => parse_users(contents@) == Some(list@.map_values(|u: User| u@)),
            None => parse_users(contents@) is None,
        },
{
    let chars = chars_of(contents);
    let pieces = split_ranges(&chars, 0, chars.len(), '\n');
    let ghost text = contents@;
    let ghost lines = lines_of(text);
    proof {
        assert(chars@.subrange(0, chars@.len() as int) =~= text);
        lemma_split_nonempty(text, '\n');
    }
    let last = pieces[pieces.len() - 1];
    let count: usize = if last.0 == last.1 {
        pieces.len() - 1
    } else {
        pieces.len()
    };
    assert(count == lines.len());
    let mut users: Vec<User> = Vec::new();
    let mut k: usize = 0;
    while k < count
        invariant
            k <= count <= pieces@.len(),
            count == lines.len(),
            lines == lines_of(text),
            text == contents@,
            chars@ == text,
            pieces@.len() == split(text, '\n').len(),
            forall|j: int|
                0 <= j < pieces@.len() ==> (#[trigger] pieces@[j]).0 <= pieces@[j].1 <= chars@.len()
                    && chars@.subrange(pieces@[j].0 as int, pieces@[j].1 as int) == split(
                    text,
                    '\n',
                )[j],
            users@.len() == k,
            forall|j: int| 0 <= j < k ==> parse_line(#[trigger] lines[j]) == Some(users@[j]@),
        decreases count - k,
    {
        let piece = pieces[k];
        let from = piece.0;
        let mut to = piece.1;
        if k + 1 < pieces.len() && from < to && chars[to - 1] == '\r' {
            to = to - 1;
        }
        let ghost line = chars@.subrange(from as int, to as int);
        proof {
            let whole = chars@.subrange(piece.0 as int, piece.1 as int);
            assert(whole == split(text, '\n')[k as int]);
            if k + 1 < pieces@.len() && whole.len() > 0 && whole.last() == '\r' {
                assert(whole.drop_last() =~= line);
            }
            assert(line == lines[k as int]);
        }
        let fields = split_ranges(&chars, from, to, ':');
        if fields.len() < 2 {
            assert(parse_line(lines[k as int]) is None);
            return None;
        }
        let first = fields[0];
        let second = fields[1];
        let tele_id = read_i64(&chars, first.0, first.1);
        let discord_id = read_u64(&chars, second.0, second.1);
        match (tele_id, discord_id) {
            (Some(t), Some(d)) => {
                users.push(User::new(&t, &d));
            },
            _ => {
                assert(parse_line(lines[k as int]) is None);
                return None;
            },
        }
        k += 1;
    }
    proof {
        assert(users@.map_values(|u: User| u@) =~= Seq::new(
            lines.len(),
            |k: int| parse_line(lines[k])->0,
        ));
    }
    Some(users)
}

/// Writes the users as the text of their file.
pub fn write_users(users: &Vec<User>) -> (text: String)
    ensures
        text@ == users_text(users@.map_values(|u: User| u@)),
{
    let ghost views = users@.map_values(|u: User| u@);
    let mut text = String::new();
    let mut i: usize = 0;
    proof {
        assert(views.take(0) =~= Seq::<UserView>::empty());
    }
    while i < users.len()
        invariant
            i <= users@.len(),
            views == users@.map_values(|u: User| u@),
            text@ == users_text(views.take(i as int)),
        decreases users@.len() - i,
    {
        let ghost before = text@;
        proof {
            reveal_strlit(":");
            reveal_strlit("\n");
            assert(views.take(i + 1).drop_last() =~= views.take(i as int));
            assert(views.take(i + 1).last() == users@[i as int]@);
        }
        push_signed_decimal(&mut text, users[i].tele_id);
        text.append(":");
        push_decimal(&mut text, users[i].discord_id);
        text.append("\n");
        assert(text@ =~= before + user_line(users@[i as int]@) + seq!['\n']);
        i += 1;
    }
    proof {
        assert(views.take(users@.len() as int) =~= views);
    }
    text
}

/// Writing `piece` behind a text lengthens its last piece, where `piece`
/// holds no separator.
pub proof fn lemma_split_append(text: Seq<char>, piece: Seq<char>, sep: char)
    requires
        forall|i: int| 0 <= i < piece.len() ==> piece[i] != sep,
    ensures
        split(text, sep).len() > 0,
        split(text + piece, sep) == split(text, sep).update(
            split(text, sep).len() - 1,
            split(text, sep).last() + piece,
        ),
    decreases piece.len(),
{
    lemma_split_nonempty(text, sep);
    let pieces = split(text, sep);
    if piece.len() == 0 {
        assert(text + piece =~= text);
        assert(pieces.last() + piece =~= pieces.last());
        assert(pieces.update(pieces.len() - 1, pieces.last()) =~= pieces);
    } else {
        let shorter = piece.drop_last();
        lemma_split_append(text, shorter, sep);
        assert((text + piece).drop_last() =~= text + shorter);
        assert((text + piece).last() == piece.last());
        assert((pieces.last() + shorter).push(piece.last()) =~= pieces.last() + piece);
        assert(split(text + piece, sep) =~= pieces.update(
            pieces.len() - 1,
            pieces.last() + piece,
        ));
    }
}

/// No digit is a colon, a line feed or a carriage return, and neither is the
/// minus sign.
proof fn lemma_number_has_no_separator(i: int, sep: char)
    requires
        sep == ':' || sep == '\n' || sep == '\r',
    ensures
        forall|k: int| 0 <= k < signed_decimal(i).len() ==> signed_decimal(i)[k] != sep,
        signed_decimal(i).len() > 0,
{
    if i < 0 {
        lemma_decimal_reads_back((-i) as nat);
        let digits = decimal((-i) as nat);
        assert forall|k: int| 0 <= k < signed_decimal(i).len() implies signed_decimal(i)[k]
            != sep by {
            if k > 0 {
                assert(signed_decimal(i)[k] == digits[k - 1]);
                assert(is_digit(digits[k - 1]));
            }
        }
    } else {
        lemma_decimal_reads_back(i as nat);
        let digits = decimal(i as nat);
        assert forall|k: int| 0 <= k < digits.len() implies digits[k] != sep by {
            assert(is_digit(digits[k]));
        }
    }
}

/// The line of a user stands for the user, and holds no line feed and ends
/// in no carriage return.
pub proof fn lemma_line_round_trip(user: UserView)
    ensures
        parse_line(user_line(user)) == Some(kept(user)),
        forall|k: int| 0 <= k < user_line(user).len() ==> user_line(user)[k] != '\n',
        without_cr(user_line(user)) == user_line(user),
        user_line(user).len() > 0,
{
    let tele = signed_decimal(user.tele_id as int);
    let disc = decimal(user.discord_id as nat);
    let empty = Seq::<char>::empty();
    lemma_number_has_no_separator(user.tele_id as int, ':');
    lemma_number_has_no_separator(user.discord_id as int, ':');
    lemma_number_has_no_separator(user.tele_id as int, '\n');
    lemma_number_has_no_separator(user.discord_id as int, '\n');
    lemma_number_has_no_separator(user.discord_id as int, '\r');
    assert(signed_decimal(user.discord_id as int) == disc);
    lemma_split_append(empty, tele, ':');
    assert(empty + tele =~= tele);
    assert(split(empty, ':') =~= seq![empty]);
    assert(split(tele, ':') =~= seq![tele]);
    let with_colon = tele + seq![':'];
    assert(with_colon.drop_last() =~= tele);
    assert(split(with_colon, ':') =~= seq![tele, empty]);
    lemma_split_append(with_colon, disc, ':');
    assert(empty + disc =~= disc);
    assert(split(user_line(user), ':') =~= seq![tele, disc]);
    lemma_i64_round_trip(user.tele_id);
    lemma_u64_round_trip(user.discord_id);
    assert(user_line(user).last() == disc.last());
}

/// The pieces between the line feeds of the users' text are the users' lines
/// and an empty piece behind them.
proof fn lemma_text_pieces(users: Seq<UserView>)
    ensures
        split(users_text(users), '\n') == Seq::new(users.len(), |k: int| user_line(users[k])).push(
            Seq::<char>::empty(),
        ),
    decreases users.len(),
{
    let empty = Seq::<char>::empty();
    let want = Seq::new(users.len(), |k: int| user_line(users[k])).push(empty);
    if users.len() == 0 {
        assert(split(users_text(users), '\n') =~= want);
    } else {
        let init = users.drop_last();
        let line = user_line(users.last());
        lemma_text_pieces(init);
        lemma_line_round_trip(users.last());
        lemma_split_append(users_text(init), line, '\n');
        let with_line = users_text(init) + line;
        let text = users_text(users);
        assert(text =~= with_line.push('\n'));
        assert(text.drop_last() =~= with_line);
        assert(empty + line =~= line);
        assert(split(text, '\n') =~= want);
    }
}

/// What is written is read back: the text of a list of users stands for
/// these users, in their order, without their stickers.
pub proof fn lemma_users_round_trip(users: Seq<UserView>)
    ensures
        parse_users(users_text(users)) == Some(users.map_values(|u: UserView| kept(u))),
{
    let text = users_text(users);
    let lines = lines_of(text);
    lemma_text_pieces(users);
    assert(lines.len() == users.len());
    assert forall|k: int| 0 <= k < lines.len() implies parse_line(#[trigger] lines[k]) == Some(
        kept(users[k]),
    ) by {
        lemma_line_round_trip(users[k]);
    }
    assert(Seq::new(lines.len(), |k: int| parse_line(lines[k])->0) =~= users.map_values(
        |u: UserView| kept(u),
    ));
}

} // verus!
