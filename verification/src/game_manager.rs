//! The matches that the server plays and keeps.

use std::path::PathBuf;

use vstd::prelude::*;

use crate::error::{is_status, Response};
use crate::match_log::texts;
use crate::table::{lists_keys, views, Table};
use crate::text::file_stem;
use crate::token::{hex_text, id_text, is_lower_hex, law_hex_round_trip, random_bytes, Token};

verus! {

/// Someone who takes part in a match.
#[derive(Debug)]
pub enum MatchPlayer {
    /// The client that connects with this token.
    External(Token),
    /// A bot that the server runs itself.
    Internal(String),
}

pub enum MatchPlayerView {
    External(Seq<u8>),
    Internal(Seq<char>),
}

impl View for MatchPlayer {
    type V = MatchPlayerView;

    open spec fn view(&self) -> MatchPlayerView {
        match self {
            MatchPlayer::External(token) => MatchPlayerView::External(token@),
            MatchPlayer::Internal(bot) => MatchPlayerView::Internal(bot@),
        }
    }
}

/// The place of a file.
#[verifier::external_type_specification]
#[verifier::external_body]
pub struct ExPathBuf(PathBuf);

/// The components of a path, each as text. The root directory, which platforms write in different ways, is
/// a slash here.
pub uninterp spec fn path_parts(path: PathBuf) -> Seq<Seq<char>>;

/// A text that names one file or directory and nothing else, whatever the platform: it is not empty,
/// does not stand for this directory or the one above, and holds no separator.
pub open spec fn is_plain_name(name: Seq<char>) -> bool {
    &&& name.len() > 0
    &&& name != seq!['.']
    &&& name != seq!['.', '.']
    &&& forall|i: int|
        0 <= i < name.len() ==> #[trigger] name[i] != '/' && name[i] != '\\' && name[i] != ':'
}

/// The separator of names in a path, which every platform knows.
pub const SEPARATOR: char = '/';

/// A path as text that every platform reads in the same way: it does not begin with two separators, which
/// name a server on some platforms, and holds none that only some platforms know.
pub open spec fn is_portable(text: Seq<char>) -> bool {
    &&& text.len() > 1 ==> text[0] != SEPARATOR || text[1] != SEPARATOR
    &&& forall|i: int| 0 <= i < text.len() ==> #[trigger] text[i] != '\\' && text[i] != ':'
}

/// A path as text that begins at the root directory.
pub open spec fn is_rooted(text: Seq<char>) -> bool {
    text.len() > 0 && text[0] == SEPARATOR
}

/// One name between separators. Nothing, and a name that stands for this directory, are no part of a path.
pub open spec fn path_name(name: Seq<char>) -> Seq<Seq<char>> {
    if name.len() == 0 || name == seq!['.'] {
        Seq::empty()
    } else {
        seq![name]
    }
}

/// The first separator stands at `at`.
pub open spec fn is_first_separator(text: Seq<char>, at: int) -> bool {
    &&& 0 <= at < text.len()
    &&& text[at] == SEPARATOR
    &&& forall|i: int| 0 <= i < at ==> text[i] != SEPARATOR
}

/// The names in a path that is given as text.
pub open spec fn path_names(text: Seq<char>) -> Seq<Seq<char>>
    decreases text.len(),
{
    if exists|at: int| is_first_separator(text, at) {
        let at = choose|at: int| is_first_separator(text, at);
        if 0 <= at < text.len() {
            path_name(text.take(at)) + path_names(text.skip(at + 1))
        } else {
            Seq::empty()
        }
    } else {
        path_name(text)
    }
}

/// All of `parts` are plain names.
pub open spec fn all_plain(parts: Seq<Seq<char>>) -> bool {
    forall|i: int| 0 <= i < parts.len() ==> is_plain_name(#[trigger] parts[i])
}

/// What becomes of a path when a text is pushed: its names come last, but a text that begins at the root
/// directory replaces the path.
pub open spec fn parts_pushed(parts: Seq<Seq<char>>, text: Seq<char>) -> Seq<Seq<char>> {
    if is_rooted(text) {
        seq![seq![SEPARATOR]] + path_names(text)
    } else {
        parts + path_names(text)
    }
}

/// The last part of a path is no name of a file: it is the directory above, or the root directory.
pub open spec fn ends_in_no_name(parts: Seq<Seq<char>>) -> bool {
    parts.last() == seq!['.', '.'] || parts.last() == seq![SEPARATOR]
}

/// A path that ends in a plain name gets the extension in place of the one it may have. One that ends in
/// no name stays as it is.
pub open spec fn parts_with_extension(
    parts: Seq<Seq<char>>,
    extension: Seq<char>,
) -> Seq<Seq<char>> {
    if ends_in_no_name(parts) {
        parts
    } else {
        parts.drop_last().push(with_extension(parts.last(), extension))
    }
}

/// `name` with the extension `extension` in place of the one it may have.
pub open spec fn with_extension(name: Seq<char>, extension: Seq<char>) -> Seq<char> {
    file_stem(name, '.').push('.') + extension
}

/// `PathBuf::new`: a path without components.
#[verifier::external_body]
fn empty_path() -> (path: PathBuf)
    ensures
        path_parts(path) == Seq::<Seq<char>>::empty(),
{
    PathBuf::new()
}

/// `PathBuf::push`, on a path of plain names: a plain name becomes the last component. Behind other names,
/// so do the names of any text that every platform reads in the same way; repeated separators, one at the
/// end, and names for this directory are not components. A text that begins at the root directory replaces
/// the path. Nothing is said of other texts, which are split as the platform has it.
#[verifier::external_body]
fn push_part(path: &mut PathBuf, part: &str)
    ensures
        all_plain(path_parts(*old(path))) && is_plain_name(part@) ==> path_parts(*final(path))
            == path_parts(*old(path)).push(part@),
        all_plain(path_parts(*old(path))) && path_parts(*old(path)).len() > 0 && is_portable(part@)
            ==> path_parts(*final(path)) == parts_pushed(path_parts(*old(path)), part@),
{
    path.push(part)
}

/// `PathBuf::set_extension`: it changes the last component, if that is a plain name, and does nothing to a
/// path that ends in the directory above or in the root directory. It panics on an extension with a separator in it.
#[verifier::external_body]
fn set_extension(path: &mut PathBuf, extension: &str)
    requires
        is_plain_name(extension@),
    ensures
        path_parts(*old(path)).len() > 0 && (is_plain_name(path_parts(*old(path)).last())
            || ends_in_no_name(path_parts(*old(path)))) ==> path_parts(*final(path)) == parts_with_extension(path_parts(*old(path)), extension@),
{
    path.set_extension(extension);
}

/// Where the logs of matches are kept.
pub const MATCHES_DIRECTORY: &'static str = "matches";

/// The extension of a file that holds the log of a match.
pub const LOG_EXTENSION: &'static str = "jsonl";

/// Where the log of a match is kept.
pub open spec fn log_place(match_id: Seq<char>) -> Seq<Seq<char>> {
    parts_with_extension(parts_pushed(seq![MATCHES_DIRECTORY@], match_id), LOG_EXTENSION@)
}

/// The names in such a path are plain, or stand for the directory above.
proof fn lemma_path_names(text: Seq<char>)
    requires
        forall|i: int| 0 <= i < text.len() ==> #[trigger] text[i] != '\\' && text[i] != ':',
    ensures
        forall|i: int|
            0 <= i < path_names(text).len() ==> is_plain_name(#[trigger] path_names(text)[i])
                || path_names(text)[i] == seq!['.', '.'],
    decreases text.len(),
{
    if exists|at: int| is_first_separator(text, at) {
        let at = choose|at: int| is_first_separator(text, at);
        assert(is_first_separator(text, at));
        let name = text.take(at);
        let rest = text.skip(at + 1);
        assert forall|i: int| 0 <= i < rest.len() implies #[trigger] rest[i] != '\\' && rest[i]
            != ':' by {
            assert(rest[i] == text[i + at + 1]);
        }
        assert forall|i: int| 0 <= i < name.len() implies #[trigger] name[i] != '/' && name[i]
            != '\\' && name[i] != ':' by {
            assert(name[i] == text[i]);
        }
        lemma_path_names(rest);
        let names = path_names(text);
        let first = path_name(name);
        assert(names == first + path_names(rest));
        assert forall|i: int| 0 <= i < names.len() implies is_plain_name(#[trigger] names[i])
            || names[i] == seq!['.', '.'] by {
            if i < first.len() {
                assert(names[i] == name);
            } else {
                assert(names[i] == path_names(rest)[i - first.len()]);
            }
        }
    } else {
        assert forall|i: int| 0 <= i < text.len() implies #[trigger] text[i] != '/' by {
            if exists|j: int| 0 <= j < text.len() && text[j] == '/' {
                let j = choose|j: int| 0 <= j < text.len() && text[j] == '/';
                let at = lemma_first_separator(text, j);
            }
        }
    }
}

/// A text with a separator in it has a first one.
proof fn lemma_first_separator(text: Seq<char>, some: int) -> (at: int)
    requires
        0 <= some < text.len(),
        text[some] == SEPARATOR,
    ensures
        is_first_separator(text, at),
    decreases some,
{
    if exists|i: int| 0 <= i < some && text[i] == SEPARATOR {
        let i = choose|i: int| 0 <= i < some && text[i] == SEPARATOR;
        lemma_first_separator(text, i)
    } else {
        some
    }
}

/// The names that do not depend on the match are plain.
proof fn lemma_fixed_names()
    ensures
        is_plain_name(MATCHES_DIRECTORY@),
        is_plain_name(LOG_EXTENSION@),
{
    reveal_strlit("matches");
    reveal_strlit("jsonl");
    assert(MATCHES_DIRECTORY@.len() == 7);
    assert(LOG_EXTENSION@.len() == 5);
    assert(seq!['.'].len() == 1);
    assert(seq!['.', '.'].len() == 2);
}

/// The file that the log of a match is kept in. Nothing is said of an identifier that platforms read in
/// different ways: one that begins with two separators, or holds a backslash or a colon.
pub fn match_file_path(match_id: &str) -> (path: PathBuf)
    ensures
        is_portable(match_id@) ==> path_parts(path) == log_place(match_id@),
{
    proof {
        lemma_fixed_names();
    }
    let mut path_buf = empty_path();
    push_part(&mut path_buf, MATCHES_DIRECTORY);
    assert(path_parts(path_buf) =~= seq![MATCHES_DIRECTORY@]);
    push_part(&mut path_buf, match_id);
    proof {
        if is_portable(match_id@) {
            lemma_path_names(match_id@);
            let parts = path_parts(path_buf);
            if path_names(match_id@).len() > 0 {
                assert(parts.last() == path_names(match_id@).last());
            } else if is_rooted(match_id@) {
                assert(parts.last() == seq![SEPARATOR]);
            } else {
                assert(parts.last() == MATCHES_DIRECTORY@);
            }
        }
    }
    set_extension(&mut path_buf, LOG_EXTENSION);
    path_buf
}

/// The log of a match with a plain name is kept in the directory of logs, under that name.
pub proof fn law_plain_log_place(match_id: Seq<char>)
    requires
        is_plain_name(match_id),
    ensures
        is_portable(match_id),
        log_place(match_id) == seq![
            MATCHES_DIRECTORY@,
            with_extension(match_id, LOG_EXTENSION@),
        ],
{
    assert(path_names(match_id) == seq![match_id]);
    let parts = parts_pushed(seq![MATCHES_DIRECTORY@], match_id);
    assert(match_id[0] != SEPARATOR);
    assert(seq![SEPARATOR][0] == SEPARATOR);
    assert(parts.last() == match_id);
    assert(parts.drop_last() =~= seq![MATCHES_DIRECTORY@]);
    assert(log_place(match_id) =~= seq![
        MATCHES_DIRECTORY@,
        with_extension(match_id, LOG_EXTENSION@),
    ]);
}

/// An identifier that the server drew is a plain name without an extension, so its log is kept under
/// the identifier itself.
pub proof fn law_log_place(id: [u8; 16])
    ensures
        is_plain_name(hex_text(id@)),
        is_portable(hex_text(id@)),
        log_place(hex_text(id@)) == seq![
            MATCHES_DIRECTORY@,
            hex_text(id@).push('.') + LOG_EXTENSION@,
        ],
{
    law_hex_round_trip(id@);
    let name = hex_text(id@);
    assert forall|i: int| 0 <= i < name.len() implies #[trigger] name[i] != '.' && name[i] != '/'
        && name[i] != '\\' && name[i] != ':' by {
        assert(is_lower_hex(name[i]));
    }
    assert(name.len() == 32);
    law_plain_log_place(name);
    assert(file_stem(name, '.') == name);
}

/// Matches with different identifiers are kept in different files.
pub proof fn law_log_places_differ(a: [u8; 16], b: [u8; 16])
    requires
        a@ != b@,
    ensures
        log_place(hex_text(a@)) != log_place(hex_text(b@)),
{
    law_log_place(a);
    law_log_place(b);
    law_hex_round_trip(a@);
    law_hex_round_trip(b@);
    let x = log_place(hex_text(a@))[1];
    let y = log_place(hex_text(b@))[1];
    assert(x.take(32) =~= hex_text(a@));
    assert(y.take(32) =~= hex_text(b@));
}

/// What the server has of a match.
#[derive(Debug)]
pub enum MatchData<S> {
    /// The match runs; its log comes through `log_stream`.
    InProgress { log_stream: S },
    /// The match is over; its log is kept at `log_path`.
    Finished { log_path: PathBuf },
}

impl<S> View for MatchData<S> {
    type V = MatchData<S>;

    open spec fn view(&self) -> MatchData<S> {
        *self
    }
}

/// All matches of the server. `S` is how the log of a match is listened to while it runs.
#[derive(Debug)]
pub struct GameManager<S> {
    matches: Table<String, MatchData<S>>,
}

impl<S> View for GameManager<S> {
    type V = Map<Seq<char>, MatchData<S>>;

    closed spec fn view(&self) -> Map<Seq<char>, MatchData<S>> {
        self.matches@
    }
}

impl<S> GameManager<S> {
    /// No matches yet.
    pub fn init() -> (mgr: Self)
        ensures
            mgr@ == Map::<Seq<char>, MatchData<S>>::empty(),
    {
        GameManager { matches: Table::new() }
    }

    /// What the server has of the match `match_id`.
    pub fn get_match_data(&self, match_id: &str) -> (data: Option<&MatchData<S>>)
        ensures
            match data {
                Some(d) => self@.contains_key(match_id@) && *d == self@[match_id@],
                None => !self@.contains_key(match_id@),
            },
    {
        self.matches.get(&match_id.to_owned())
    }

    /// The identifiers of all matches.
    pub fn list_matches(&self) -> (ids: Vec<String>)
        ensures
            lists_keys(self@, texts(ids@)),
    {
        let ids = self.matches.keys();
        assert(views(ids@) =~= texts(ids@));
        ids
    }

    /// Takes down that a match runs.
    pub fn register_match(&mut self, match_id: String, log_stream: S)
        ensures
            final(self)@ == old(self)@.insert(match_id@, MatchData::InProgress { log_stream }),
    {
        self.matches.insert(match_id, MatchData::InProgress { log_stream });
    }

    /// Takes down that a match is over and its log is kept at `log_path`.
    pub fn finish_match(&mut self, match_id: String, log_path: PathBuf)
        ensures
            final(self)@ == old(self)@.insert(match_id@, MatchData::Finished { log_path }),
    {
        self.matches.insert(match_id, MatchData::Finished { log_path });
    }
}

/// `text` is the written form of some identifier.
pub open spec fn is_drawn_id(text: Seq<char>) -> bool {
    exists|id: [u8; 16]| text == #[trigger] hex_text(id@)
}

/// Draws an identifier for a match.
pub fn gen_match_id() -> (id: String)
    ensures
        is_drawn_id(id@),
{
    let bytes = random_bytes();
    let id = id_text(&bytes);
    assert(id@ == hex_text(bytes@));
    id
}

/// Takes down that a match runs, under an identifier that is drawn at random.
pub fn create_match<S>(game_mgr: &mut GameManager<S>, log_stream: S) -> (match_id: String)
    ensures
        is_drawn_id(match_id@),
        final(game_mgr)@ == old(game_mgr)@.insert(
            match_id@,
            MatchData::InProgress { log_stream },
        ),
{
    let match_id = gen_match_id();
    game_mgr.register_match(match_id.clone(), log_stream);
    match_id
}

/// How the log of a match can be had.
pub open spec fn kept_log<S>(
    matches: Map<Seq<char>, MatchData<S>>,
    match_id: Seq<char>,
) -> Option<PathBuf> {
    if matches.contains_key(match_id) {
        match matches[match_id] {
            MatchData::Finished { log_path } => Some(log_path),
            MatchData::InProgress { .. } => None,
        }
    } else {
        None
    }
}

impl<S> GameManager<S> {
    /// Where the log of a match is kept, once the match is over.
    pub fn finished_log(&self, match_id: &str) -> (path: Option<&PathBuf>)
        ensures
            match path {
                Some(p) => kept_log(self@, match_id@) == Some(*p),
                None => kept_log(self@, match_id@) is None,
            },
    {
        match self.get_match_data(match_id) {
            Some(MatchData::Finished { log_path }) => Some(log_path),
            _ => None,
        }
    }

    /// The log of a match that still runs.
    pub fn running_log(&self, match_id: &str) -> (stream: Option<&S>)
        ensures
            match stream {
                Some(s) => self@.contains_key(match_id@) && self@[match_id@]
                    == (MatchData::InProgress { log_stream: *s }),
                None => !self@.contains_key(match_id@) || self@[match_id@] is Finished,
            },
    {
        match self.get_match_data(match_id) {
            Some(MatchData::InProgress { log_stream }) => Some(log_stream),
            _ => None,
        }
    }
}

/// The answer to a request for the log of a match: `read` is what came of reading the file that it is
/// kept in, if it is kept in one.
pub fn match_log_response(read: Option<Result<Vec<String>, String>>) -> (response: Response<
    Vec<String>,
>)
    ensures
        match read {
            Some(Ok(log)) => response == Response::Json(log),
            Some(Err(msg)) => is_status(response, 500, Some(msg@)),
            None => is_status(response, 404, None),
        },
{
    match read {
        Some(Ok(log)) => Response::Json(log),
        Some(Err(msg)) => Response::Status { code: 500, message: Some(msg) },
        None => Response::Status { code: 404, message: None },
    }
}

/// The number by which each of `count` players is known in a match: they are counted from one.
pub open spec fn player_number(index: int) -> u32 {
    (index + 1) as u32
}

/// The numbers of `count` players of a match.
pub fn player_numbers(count: usize) -> (numbers: Vec<u32>)
    ensures
        numbers@ == Seq::new(count as nat, |i: int| player_number(i)),
        count <= u32::MAX ==> forall|i: int| 0 <= i < count ==> #[trigger] numbers@[i] == i + 1,
{
    let mut numbers: Vec<u32> = Vec::new();
    let mut i: usize = 0;
    while i < count
        invariant
            i <= count,
            numbers@ == Seq::new(i as nat, |j: int| player_number(j)),
        decreases count - i,
    {
        i += 1;
        numbers.push(i as u32);
        assert(numbers@ =~= Seq::new(i as nat, |j: int| player_number(j)));
    }
    numbers
}

/// The log of a match that the server drew an identifier for is kept in the directory `matches`, in a file
/// that is named by the identifier and ends in `.jsonl`.
pub proof fn law_log_file(id: [u8; 16])
    ensures
        log_place(hex_text(id@)).len() == 2,
        log_place(hex_text(id@))[0] == "matches"@,
        log_place(hex_text(id@))[1] == hex_text(id@) + ".jsonl"@,
{
    law_log_place(id);
    reveal_strlit("jsonl");
    reveal_strlit(".jsonl");
    assert(hex_text(id@).push('.') + LOG_EXTENSION@ =~= hex_text(id@) + ".jsonl"@);
}

/// A log can be had exactly of a match that is over, and from where it was kept.
pub proof fn law_kept_log<S>(matches: Map<Seq<char>, MatchData<S>>, match_id: Seq<char>)
    ensures
        kept_log(matches, match_id) is Some <==> matches.contains_key(match_id)
            && matches[match_id] is Finished,
        kept_log(matches, match_id) matches Some(path) ==> matches[match_id] == (
        MatchData::<S>::Finished { log_path: path }),
{
}

/// The players of a match are counted from one.
pub proof fn law_player_number(index: int)
    requires
        0 <= index < u32::MAX,
    ensures
        player_number(index) == index + 1,
{
}

/// A drawn identifier is thirty-two small hexadecimal digits.
pub proof fn law_drawn_id(text: Seq<char>)
    requires
        is_drawn_id(text),
    ensures
        text.len() == 32,
        forall|i: int| 0 <= i < 32 ==> is_lower_hex(#[trigger] text[i]),
{
    let id = choose|id: [u8; 16]| text == #[trigger] hex_text(id@);
    law_hex_round_trip(id@);
}

/// Who takes part in a match is known by their token, or by the name of the bot.
pub proof fn law_match_player_view(player: MatchPlayer)
    ensures
        match player {
            MatchPlayer::External(token) => player@ == MatchPlayerView::External(token@),
            MatchPlayer::Internal(bot) => player@ == MatchPlayerView::Internal(bot@),
        },
{
}

} // verus!
