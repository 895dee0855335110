//! The game that matches are played in.

use vstd::prelude::*;

use crate::table::{Duplicate, Table};

verus! {

/// How a match is to be played.
#[derive(Debug)]
pub struct MatchConfig {
    pub map_name: String,
    pub max_turns: usize,
}

pub struct MatchConfigView {
    pub map_name: Seq<char>,
    pub max_turns: usize,
}

impl View for MatchConfig {
    type V = MatchConfigView;

    open spec fn view(&self) -> MatchConfigView {
        MatchConfigView { map_name: self.map_name@, max_turns: self.max_turns }
    }
}

impl Duplicate for MatchConfig {
    fn duplicate(&self) -> (copy: Self) {
        MatchConfig { map_name: self.map_name.clone(), max_turns: self.max_turns }
    }
}

/// How long a player may think about a turn, in milliseconds.
pub const TURN_TIMEOUT_MILLIS: u64 = 1000;

/// What the rules of moving read of a planet.
#[derive(Debug, Clone, Copy, PartialEq, Eq, Structural)]
pub struct Planet {
    /// The player who owns the planet.
    pub owner: Option<usize>,
    pub ship_count: u64,
}

/// What the server reads of a player of a running game.
#[derive(Debug, Clone, Copy, PartialEq, Eq, Structural)]
pub struct GamePlayer {
    pub id: usize,
    pub alive: bool,
}

/// A move that a player asks for: ships from one planet to another, both by name.
#[derive(Debug)]
pub struct Command {
    pub origin: String,
    pub destination: String,
    pub ship_count: u64,
}

pub struct CommandView {
    pub origin: Seq<char>,
    pub destination: Seq<char>,
    pub ship_count: u64,
}

impl View for Command {
    type V = CommandView;

    open spec fn view(&self) -> CommandView {
        CommandView {
            origin: self.origin@,
            destination: self.destination@,
            ship_count: self.ship_count,
        }
    }
}

impl Duplicate for Command {
    fn duplicate(&self) -> (copy: Self) {
        Command {
            origin: self.origin.clone(),
            destination: self.destination.clone(),
            ship_count: self.ship_count,
        }
    }
}

/// What can be wrong with a move.
#[derive(Debug, Clone, Copy, PartialEq, Eq, Structural)]
pub enum CommandError {
    OriginDoesNotExist,
    DestinationDoesNotExist,
    OriginNotOwned,
    NotEnoughShips,
    ZeroShipMove,
}

/// A move that the game is to make: ships from one planet to another, both by number.
#[derive(Debug, Clone, Copy, PartialEq, Eq, Structural)]
pub struct Dispatch {
    pub origin: usize,
    pub target: usize,
    pub ship_count: u64,
}

/// A move that a player asked for, and what was wrong with it.
#[derive(Debug)]
pub struct PlayerCommand {
    pub command: Command,
    pub error: Option<CommandError>,
}

pub struct PlayerCommandView {
    pub command: CommandView,
    pub error: Option<CommandError>,
}

impl View for PlayerCommand {
    type V = PlayerCommandView;

    open spec fn view(&self) -> PlayerCommandView {
        PlayerCommandView { command: self.command@, error: self.error }
    }
}

/// What a player sent in for a turn.
#[derive(Debug)]
pub enum Turn {
    /// Nothing, in time.
    Timeout,
    /// Something that cannot be read, for the reason given.
    Unreadable(String),
    /// These moves.
    Commands(Vec<Command>),
}

/// What came of a player's turn.
#[derive(Debug)]
pub enum PlayerAction {
    Timeout,
    ParseError(String),
    Commands(Vec<PlayerCommand>),
}

/// What a list of moves says.
pub open spec fn command_views(commands: Seq<Command>) -> Seq<CommandView> {
    commands.map_values(|command: Command| command@)
}

/// What a list of moves that were tried says.
pub open spec fn tried_views(commands: Seq<PlayerCommand>) -> Seq<PlayerCommandView> {
    commands.map_values(|command: PlayerCommand| command@)
}

/// The names of the planets and their numbers, as a map. Of planets with one name the last counts.
pub open spec fn planets_by_name(planets: Seq<(Seq<char>, usize)>) -> Map<Seq<char>, usize>
    decreases planets.len(),
{
    if planets.len() == 0 {
        Map::empty()
    } else {
        planets_by_name(planets.drop_last()).insert(planets.last().0, planets.last().1)
    }
}

/// What a list of named planets says.
pub open spec fn named_views(planets: Seq<(String, usize)>) -> Seq<(Seq<char>, usize)> {
    planets.map_values(|planet: (String, usize)| (planet.0@, planet.1))
}

/// What is wrong with a move, if anything is. What is checked first counts first.
pub open spec fn command_error(
    names: Map<Seq<char>, usize>,
    planets: Seq<Planet>,
    player: usize,
    mv: CommandView,
) -> Option<CommandError> {
    if !names.contains_key(mv.origin) {
        Some(CommandError::OriginDoesNotExist)
    } else if !names.contains_key(mv.destination) {
        Some(CommandError::DestinationDoesNotExist)
    } else if planets[names[mv.origin] as int].owner != Some(player) {
        Some(CommandError::OriginNotOwned)
    } else if planets[names[mv.origin] as int].ship_count < mv.ship_count {
        Some(CommandError::NotEnoughShips)
    } else if mv.ship_count == 0 {
        Some(CommandError::ZeroShipMove)
    } else {
        None
    }
}

/// The move that the game makes for `mv`.
pub open spec fn dispatch_of(names: Map<Seq<char>, usize>, mv: CommandView) -> Dispatch {
    Dispatch {
        origin: names[mv.origin],
        target: names[mv.destination],
        ship_count: mv.ship_count,
    }
}

/// Every named planet is one of `count` planets.
pub open spec fn names_within(names: Map<Seq<char>, usize>, count: nat) -> bool {
    forall|name: Seq<char>| #[trigger] names.contains_key(name) ==> names[name] < count
}

/// The planet that a move starts from is one of `count` planets, if it and the one it goes to are known by
/// name.
pub open spec fn origin_within(names: Map<Seq<char>, usize>, mv: CommandView, count: nat) -> bool {
    names.contains_key(mv.origin) && names.contains_key(mv.destination) ==> names[mv.origin] < count
}

/// A game of planetwars: its planets by name.
#[derive(Debug)]
pub struct Planetwars {
    planet_map: Table<String, usize>,
}

impl View for Planetwars {
    type V = Map<Seq<char>, usize>;

    closed spec fn view(&self) -> Map<Seq<char>, usize> {
        self.planet_map@
    }
}

impl Planetwars {
    /// The game on `planets`, each given by name and number.
    pub fn create(planets: &Vec<(String, usize)>) -> (game: Self)
        ensures
            game@ == planets_by_name(named_views(planets@)),
    {
        let mut planet_map: Table<String, usize> = Table::new();
        let ghost all = named_views(planets@);
        let n = planets.len();
        let mut i: usize = 0;
        assert(all.take(0) =~= Seq::<(Seq<char>, usize)>::empty());
        while i < n
            invariant
                all == named_views(planets@),
                n == planets@.len(),
                i <= n,
                planet_map@ == planets_by_name(all.take(i as int)),
            decreases n - i,
        {
            planet_map.insert(planets[i].0.clone(), planets[i].1);
            i += 1;
            assert(all.take(i as int).drop_last() =~= all.take(i - 1));
        }
        assert(all.take(n as int) =~= all);
        Planetwars { planet_map }
    }

    /// Checks a move of a player, with the planets as they are now.
    pub fn check_valid_command(&self, planets: &Vec<Planet>, player_num: usize, mv: &Command) -> (res:
        Result<Dispatch, CommandError>)
        requires
            origin_within(self@, mv@, planets@.len()),
        ensures
            res == match command_error(self@, planets@, player_num, mv@) {
                Some(error) => Err(error),
                None => Ok::<Dispatch, CommandError>(dispatch_of(self@, mv@)),
            },
            res is Ok <==> {
                &&& self@.contains_key(mv.origin@)
                &&& self@.contains_key(mv.destination@)
                &&& planets@[self@[mv.origin@] as int].owner == Some(player_num)
                &&& 0 < mv.ship_count <= planets@[self@[mv.origin@] as int].ship_count
            },
            res matches Ok(dispatch) ==> {
                &&& dispatch.origin == self@[mv.origin@]
                &&& dispatch.target == self@[mv.destination@]
                &&& dispatch.ship_count == mv.ship_count
            },
    {
        let origin_id = match self.planet_map.get(&mv.origin) {
            Some(id) => *id,
            None => return Err(CommandError::OriginDoesNotExist),
        };
        let target_id = match self.planet_map.get(&mv.destination) {
            Some(id) => *id,
            None => return Err(CommandError::DestinationDoesNotExist),
        };
        let origin = planets[origin_id];
        let owned = match origin.owner {
            Some(owner) => owner == player_num,
            None => false,
        };
        if !owned {
            return Err(CommandError::OriginNotOwned);
        }
        if origin.ship_count < mv.ship_count {
            return Err(CommandError::NotEnoughShips);
        }
        if mv.ship_count == 0 {
            return Err(CommandError::ZeroShipMove);
        }
        Ok(Dispatch { origin: origin_id, target: target_id, ship_count: mv.ship_count })
    }
}

/// A turn of one player while its moves are tried one after the other.
#[derive(Debug)]
pub struct ActionRun {
    player_num: usize,
    commands: Vec<Command>,
    tried: Vec<PlayerCommand>,
}

impl ActionRun {
    /// Whose turn it is.
    pub closed spec fn player(self) -> usize {
        self.player_num
    }

    /// All moves of the turn.
    pub closed spec fn commands(self) -> Seq<CommandView> {
        command_views(self.commands@)
    }

    /// The moves that were tried so far.
    pub closed spec fn tried(self) -> Seq<PlayerCommandView> {
        tried_views(self.tried@)
    }

    /// The move that is tried next.
    pub open spec fn next_move(self) -> CommandView {
        self.commands()[self.tried().len() as int]
    }

    /// The moves are tried in the order in which they were sent in.
    #[verifier::type_invariant]
    spec fn inv(&self) -> bool {
        &&& self.tried@.len() <= self.commands@.len()
        &&& forall|i: int|
            0 <= i < self.tried@.len() ==> (#[trigger] self.tried@[i]).command@
                == self.commands@[i]@
    }

    /// Tries the next move, with the planets as they are now. The move that the game is to make before
    /// anything else is tried, if there is one.
    pub fn step(&mut self, game: &Planetwars, planets: &Vec<Planet>) -> (dispatch: Option<Dispatch>)
        requires
            old(self).tried().len() < old(self).commands().len(),
            origin_within(game@, old(self).next_move(), planets@.len()),
        ensures
            final(self).player() == old(self).player(),
            final(self).commands() == old(self).commands(),
            ({
                let mv = old(self).next_move();
                let error = command_error(game@, planets@, old(self).player(), mv);
                &&& final(self).tried() == old(self).tried().push(
                    PlayerCommandView { command: mv, error },
                )
                &&& dispatch == match error {
                    Some(_) => None,
                    None => Some(dispatch_of(game@, mv)),
                }
            }),
    {
        proof {
            use_type_invariant(&*self);
        }
        let ghost before = self.tried@;
        let command = self.commands[self.tried.len()].duplicate();
        let mut tried: Vec<PlayerCommand> = Vec::new();
        std::mem::swap(&mut tried, &mut self.tried);
        let (dispatch, error): (Option<Dispatch>, Option<CommandError>) =
            match game.check_valid_command(planets, self.player_num, &command) {
            Ok(dispatch) => (Some(dispatch), None),
            Err(error) => (None, Some(error)),
        };
        let done = PlayerCommand { command, error };
        assert(tried_views(before.push(done)) =~= tried_views(before).push(done@));
        tried.push(done);
        self.tried = tried;
        dispatch
    }

    /// Whether the planet that the next move starts from is one of `count` planets, as far as it is known.
    pub fn starts_within(&self, game: &Planetwars, count: usize) -> (within: bool)
        requires
            self.tried().len() < self.commands().len(),
        ensures
            within == origin_within(game@, self.next_move(), count as nat),
    {
        let command = &self.commands[self.tried.len()];
        match (game.planet_map.get(&command.origin), game.planet_map.get(&command.destination)) {
            (Some(origin), Some(_)) => *origin < count,
            _ => true,
        }
    }

    /// Whether all moves were tried.
    pub fn is_done(&self) -> (done: bool)
        ensures
            done == (self.tried().len() == self.commands().len()),
            self.tried().len() <= self.commands().len(),
    {
        proof {
            use_type_invariant(self);
        }
        self.tried.len() == self.commands.len()
    }

    /// What came of the turn.
    pub fn finish(self) -> (action: PlayerAction)
        ensures
            action matches PlayerAction::Commands(tried) && tried_views(tried@) == self.tried(),
            forall|i: int|
                0 <= i < self.tried().len() ==> (#[trigger] self.tried()[i]).command
                    == self.commands()[i],
    {
        proof {
            use_type_invariant(&self);
        }
        PlayerAction::Commands(self.tried)
    }
}

/// Begins the turn of a player. A player who sent in no moves is done at once.
pub fn execute_action(player_num: usize, turn: Turn) -> (res: Result<ActionRun, PlayerAction>)
    ensures
        match turn {
            Turn::Timeout => res matches Err(PlayerAction::Timeout),
            Turn::Unreadable(msg) => res == Err::<ActionRun, PlayerAction>(
                PlayerAction::ParseError(msg),
            ),
            Turn::Commands(commands) => {
                &&& res is Ok
                &&& res->Ok_0.player() == player_num
                &&& res->Ok_0.commands() == command_views(commands@)
                &&& res->Ok_0.tried() == Seq::<PlayerCommandView>::empty()
            },
        },
{
    match turn {
        Turn::Timeout => Err(PlayerAction::Timeout),
        Turn::Unreadable(msg) => Err(PlayerAction::ParseError(msg)),
        Turn::Commands(commands) => {
            let run = ActionRun { player_num, commands, tried: Vec::new() };
            assert(run.tried() =~= Seq::<PlayerCommandView>::empty());
            Ok(run)
        },
    }
}

/// The players who are still in the game.
pub open spec fn alive_players(players: Seq<GamePlayer>) -> Seq<GamePlayer> {
    players.filter(|player: GamePlayer| player.alive)
}

/// The players who are asked for a turn: for each their number in the game and the number that they
/// are asked by.
pub fn players_to_prompt(players: &Vec<GamePlayer>) -> (asked: Vec<(usize, u32)>)
    requires
        forall|i: int|
            0 <= i < players@.len() && (#[trigger] players@[i]).alive ==> players@[i].id
                <= u32::MAX,
    ensures
        asked@ == alive_players(players@).map_values(
            |player: GamePlayer| (player.id, player.id as u32),
        ),
        forall|i: int| 0 <= i < asked@.len() ==> (#[trigger] asked@[i]).0 == asked@[i].1,
        forall|i: int|
            0 <= i < players@.len() && (#[trigger] players@[i]).alive ==> asked@.contains(
                (players@[i].id, players@[i].id as u32),
            ),
        forall|k: int|
            0 <= k < asked@.len() ==> players@.contains(
                GamePlayer { id: (#[trigger] asked@[k]).0, alive: true },
            ),
{
    proof {
        law_living_asked(players@);
    }
    let ghost target = |player: GamePlayer| (player.id, player.id as u32);
    let mut asked: Vec<(usize, u32)> = Vec::new();
    let n = players.len();
    let mut i: usize = 0;
    proof {
        reveal(Seq::filter);
        assert(asked@ =~= alive_players(players@.take(0)).map_values(target));
    }
    while i < n
        invariant
            n == players@.len(),
            i <= n,
            target == (|player: GamePlayer| (player.id, player.id as u32)),
            forall|i: int|
                0 <= i < players@.len() && (#[trigger] players@[i]).alive ==> players@[i].id
                    <= u32::MAX,
            asked@ == alive_players(players@.take(i as int)).map_values(target),
            forall|i: int| 0 <= i < asked@.len() ==> (#[trigger] asked@[i]).0 == asked@[i].1,
        decreases n - i,
    {
        let player = players[i];
        proof {
            reveal(Seq::filter);
            assert(players@.take(i + 1).drop_last() =~= players@.take(i as int));
        }
        if player.alive {
            asked.push((player.id, player.id as u32));
        }
        i += 1;
        assert(asked@ =~= alive_players(players@.take(i as int)).map_values(target));
    }
    proof {
        assert(players@.take(n as int) =~= players@);
        let alive = alive_players(players@);
        assert forall|i: int| 0 <= i < players@.len() && (#[trigger] players@[i]).alive implies asked@.contains(
            (players@[i].id, players@[i].id as u32),
        ) by {
            let k = choose|k: int| 0 <= k < alive.len() && alive[k] == players@[i];
            assert(asked@[k] == (players@[i].id, players@[i].id as u32));
        }
        assert forall|k: int| 0 <= k < asked@.len() implies players@.contains(
            GamePlayer { id: (#[trigger] asked@[k]).0, alive: true },
        ) by {
            assert(alive[k].alive && players@.contains(alive[k]));
            assert(alive[k] == GamePlayer { id: asked@[k].0, alive: true });
        }
    }
    asked
}

/// Begins a turn of a game: the players who are asked for it, unless the game is over.
pub fn begin_turn(finished: bool, players: &Vec<GamePlayer>) -> (asked: Option<Vec<(usize, u32)>>)
    requires
        !finished ==> forall|i: int|
            0 <= i < players@.len() && (#[trigger] players@[i]).alive ==> players@[i].id
                <= u32::MAX,
    ensures
        match asked {
            Some(list) => !finished && list@ == alive_players(players@).map_values(
                |player: GamePlayer| (player.id, player.id as u32),
            ),
            None => finished,
        },
{
    if finished {
        None
    } else {
        Some(players_to_prompt(players))
    }
}

/// The names of planets that are counted below `count` stand for planets that are there.
pub proof fn law_names_within(planets: Seq<(Seq<char>, usize)>, count: nat)
    requires
        forall|i: int| 0 <= i < planets.len() ==> (#[trigger] planets[i]).1 < count,
    ensures
        names_within(planets_by_name(planets), count),
    decreases planets.len(),
{
    if planets.len() > 0 {
        let earlier = planets.drop_last();
        assert forall|i: int| 0 <= i < earlier.len() implies (#[trigger] earlier[i]).1 < count by {
            assert(planets[i].1 < count);
        }
        law_names_within(earlier, count);
        assert(planets[planets.len() - 1].1 < count);
        assert forall|name: Seq<char>| #[trigger]
            planets_by_name(planets).contains_key(name) implies planets_by_name(planets)[name]
            < count by {
            if name != planets.last().0 {
                assert(planets_by_name(earlier).contains_key(name));
            }
        }
    }
}

/// Of planets with different names each is found under its own.
pub proof fn law_planet_found(planets: Seq<(Seq<char>, usize)>, i: int)
    requires
        0 <= i < planets.len(),
        forall|a: int, b: int|
            0 <= a < b < planets.len() ==> (#[trigger] planets[a]).0 != (#[trigger] planets[b]).0,
    ensures
        planets_by_name(planets).contains_key(planets[i].0),
        planets_by_name(planets)[planets[i].0] == planets[i].1,
    decreases planets.len(),
{
    if i < planets.len() - 1 {
        let earlier = planets.drop_last();
        assert(earlier[i] == planets[i]);
        law_planet_found(earlier, i);
        assert(planets[i].0 != planets[planets.len() - 1].0);
    }
}

/// Names that all stand for planets that are there do so for the planet that any move starts from.
pub proof fn law_origin_within(names: Map<Seq<char>, usize>, mv: CommandView, count: nat)
    requires
        names_within(names, count),
    ensures
        origin_within(names, mv, count),
{
}

/// A move that is made is one that the player can make: the planet it starts from is theirs, and holds
/// the ships that are sent, of which there is at least one. The planet that it goes to is there, if all
/// that have a name are.
pub proof fn law_only_own_ships_move(
    names: Map<Seq<char>, usize>,
    planets: Seq<Planet>,
    player: usize,
    mv: CommandView,
)
    requires
        origin_within(names, mv, planets.len()),
        command_error(names, planets, player, mv) is None,
    ensures
        ({
            let dispatch = dispatch_of(names, mv);
            &&& dispatch.origin < planets.len()
            &&& planets[dispatch.origin as int].owner == Some(player)
            &&& 0 < dispatch.ship_count <= planets[dispatch.origin as int].ship_count
            &&& names_within(names, planets.len()) ==> dispatch.target < planets.len()
        }),
{
}

/// The planets once a move was made: its ships have left the planet that they started from.
pub open spec fn after_dispatch(planets: Seq<Planet>, dispatch: Dispatch) -> Seq<Planet> {
    let origin = planets[dispatch.origin as int];
    planets.update(
        dispatch.origin as int,
        Planet { ship_count: (origin.ship_count - dispatch.ship_count) as u64, ..origin },
    )
}

/// The planets once `commands` were tried one after the other, and each that nothing is wrong with was
/// made before the next was tried.
pub open spec fn planets_after(
    names: Map<Seq<char>, usize>,
    planets: Seq<Planet>,
    player: usize,
    commands: Seq<CommandView>,
) -> Seq<Planet>
    decreases commands.len(),
{
    if commands.len() == 0 {
        planets
    } else {
        let now = planets_after(names, planets, player, commands.drop_last());
        match command_error(names, now, player, commands.last()) {
            Some(_) => now,
            None => after_dispatch(now, dispatch_of(names, commands.last())),
        }
    }
}

/// What comes of `commands` if they are tried one after the other.
pub open spec fn tried_after(
    names: Map<Seq<char>, usize>,
    planets: Seq<Planet>,
    player: usize,
    commands: Seq<CommandView>,
) -> Seq<PlayerCommandView>
    decreases commands.len(),
{
    if commands.len() == 0 {
        Seq::empty()
    } else {
        let earlier = commands.drop_last();
        let now = planets_after(names, planets, player, earlier);
        tried_after(names, planets, player, earlier).push(
            PlayerCommandView {
                command: commands.last(),
                error: command_error(names, now, player, commands.last()),
            },
        )
    }
}

/// How many ships the moves that were made have sent off from the planet `origin`.
pub open spec fn ships_sent(
    names: Map<Seq<char>, usize>,
    tried: Seq<PlayerCommandView>,
    origin: usize,
) -> int
    decreases tried.len(),
{
    if tried.len() == 0 {
        0
    } else {
        let last = tried.last();
        ships_sent(names, tried.drop_last(), origin) + if last.error is None
            && names[last.command.origin] == origin {
            last.command.ship_count as int
        } else {
            0
        }
    }
}

/// Over a whole turn a player sends off from a planet at most the ships that it held at the start, and
/// none from a planet that was not theirs. What is not sent off is still there, and no planet changes
/// hands.
pub proof fn law_turn_sends_own_ships(
    names: Map<Seq<char>, usize>,
    planets: Seq<Planet>,
    player: usize,
    commands: Seq<CommandView>,
    origin: usize,
)
    requires
        forall|i: int|
            0 <= i < commands.len() ==> origin_within(
                names,
                #[trigger] commands[i],
                planets.len(),
            ),
        origin < planets.len(),
    ensures
        ({
            let tried = tried_after(names, planets, player, commands);
            let after = planets_after(names, planets, player, commands);
            let sent = ships_sent(names, tried, origin);
            &&& 0 <= sent <= planets[origin as int].ship_count
            &&& planets[origin as int].owner != Some(player) ==> sent == 0
            &&& after.len() == planets.len()
            &&& after[origin as int] == (Planet {
                ship_count: (planets[origin as int].ship_count - sent) as u64,
                ..planets[origin as int]
            })
        }),
    decreases commands.len(),
{
    if commands.len() > 0 {
        let earlier = commands.drop_last();
        let last = commands.last();
        assert forall|i: int| 0 <= i < earlier.len() implies origin_within(
            names,
            #[trigger] earlier[i],
            planets.len(),
        ) by {
            assert(origin_within(names, commands[i], planets.len()));
        }
        assert(origin_within(names, commands[commands.len() - 1], planets.len()));
        law_turn_sends_own_ships(names, planets, player, earlier, origin);
        let tried = tried_after(names, planets, player, commands);
        assert(tried.drop_last() =~= tried_after(names, planets, player, earlier));
    }
}

/// A run that has come so far, and is stepped with the planets as they are then, comes one move further:
/// stepping through a turn gives what the turn comes to.
pub proof fn law_turn_by_steps(
    names: Map<Seq<char>, usize>,
    planets: Seq<Planet>,
    player: usize,
    commands: Seq<CommandView>,
    done: int,
)
    requires
        0 <= done < commands.len(),
    ensures
        ({
            let now = planets_after(names, planets, player, commands.take(done));
            let error = command_error(names, now, player, commands[done]);
            &&& tried_after(names, planets, player, commands.take(done + 1)) == tried_after(
                names,
                planets,
                player,
                commands.take(done),
            ).push(PlayerCommandView { command: commands[done], error })
            &&& planets_after(names, planets, player, commands.take(done + 1)) == match error {
                Some(_) => now,
                None => after_dispatch(now, dispatch_of(names, commands[done])),
            }
            &&& tried_after(names, planets, player, commands.take(done)).len() == done
        }),
{
    assert(commands.take(done + 1).drop_last() =~= commands.take(done));
    lemma_tried_len(names, planets, player, commands.take(done));
}

/// Every move of a turn is tried.
proof fn lemma_tried_len(
    names: Map<Seq<char>, usize>,
    planets: Seq<Planet>,
    player: usize,
    commands: Seq<CommandView>,
)
    ensures
        tried_after(names, planets, player, commands).len() == commands.len(),
    decreases commands.len(),
{
    if commands.len() > 0 {
        lemma_tried_len(names, planets, player, commands.drop_last());
    }
}

/// A player may make exactly the moves that send some of the ships on a planet of their own, and no more
/// than there are, to a planet that is known. Who owns that planet does not matter.
pub proof fn law_moves_allowed(
    names: Map<Seq<char>, usize>,
    planets: Seq<Planet>,
    player: usize,
    mv: CommandView,
)
    ensures
        command_error(names, planets, player, mv) is None <==> {
            &&& names.contains_key(mv.origin)
            &&& names.contains_key(mv.destination)
            &&& planets[names[mv.origin] as int].owner == Some(player)
            &&& 0 < mv.ship_count <= planets[names[mv.origin] as int].ship_count
        },
{
}

/// What is said to be wrong with a move is what is wrong with it: each error is given exactly where nothing
/// that is checked earlier is wrong.
pub proof fn law_move_errors(
    names: Map<Seq<char>, usize>,
    planets: Seq<Planet>,
    player: usize,
    mv: CommandView,
)
    ensures
        ({
            let error = command_error(names, planets, player, mv);
            let known = names.contains_key(mv.origin) && names.contains_key(mv.destination);
            let origin = planets[names[mv.origin] as int];
            &&& error == Some(CommandError::OriginDoesNotExist) <==> !names.contains_key(mv.origin)
            &&& error == Some(CommandError::DestinationDoesNotExist) <==> names.contains_key(
                mv.origin,
            ) && !names.contains_key(mv.destination)
            &&& error == Some(CommandError::OriginNotOwned) <==> known && origin.owner != Some(
                player,
            )
            &&& error == Some(CommandError::NotEnoughShips) <==> known && origin.owner == Some(
                player,
            ) && mv.ship_count > origin.ship_count
            &&& error == Some(CommandError::ZeroShipMove) <==> known && origin.owner == Some(player)
                && mv.ship_count == 0
        }),
{
}

/// Nothing but the planet that a move starts from decides over it: it comes out alike whatever the other
/// planets are, and whichever known planet it goes to.
pub proof fn law_move_depends_on_origin(
    names: Map<Seq<char>, usize>,
    planets: Seq<Planet>,
    others: Seq<Planet>,
    player: usize,
    mv: CommandView,
    elsewhere: Seq<char>,
)
    requires
        names.contains_key(mv.origin) ==> planets[names[mv.origin] as int]
            == others[names[mv.origin] as int],
        names.contains_key(mv.destination) <==> names.contains_key(elsewhere),
    ensures
        command_error(names, planets, player, mv) == command_error(
            names,
            others,
            player,
            CommandView { destination: elsewhere, ..mv },
        ),
{
}

/// The move that the game makes takes the ships that were asked for from the planet that was named to the
/// one that was named.
pub proof fn law_dispatch(names: Map<Seq<char>, usize>, mv: CommandView)
    ensures
        dispatch_of(names, mv).origin == names[mv.origin],
        dispatch_of(names, mv).target == names[mv.destination],
        dispatch_of(names, mv).ship_count == mv.ship_count,
{
}

/// One player more: one who is alive is asked last, one who is not is not asked.
pub proof fn law_next_asked(players: Seq<GamePlayer>, player: GamePlayer)
    ensures
        alive_players(Seq::empty()) == Seq::<GamePlayer>::empty(),
        player.alive ==> alive_players(players.push(player)) == alive_players(players).push(player),
        !player.alive ==> alive_players(players.push(player)) == alive_players(players),
{
    reveal(Seq::filter);
    assert(players.push(player).drop_last() =~= players);
}

/// All who are alive are asked, and nobody else is.
pub proof fn law_living_asked(players: Seq<GamePlayer>)
    ensures
        forall|i: int|
            0 <= i < players.len() && (#[trigger] players[i]).alive ==> alive_players(
                players,
            ).contains(players[i]),
        forall|k: int|
            0 <= k < alive_players(players).len() ==> (#[trigger] alive_players(players)[k]).alive
                && players.contains(alive_players(players)[k]),
    decreases players.len(),
{
    if players.len() == 0 {
        assert(players =~= Seq::empty());
        law_next_asked(players, GamePlayer { id: 0, alive: true });
    } else {
        let earlier = players.drop_last();
        let last = players.last();
        assert(players =~= earlier.push(last));
        law_next_asked(earlier, last);
        law_living_asked(earlier);
        let before = alive_players(earlier);
        let after = alive_players(players);
        assert forall|i: int| 0 <= i < players.len() && (#[trigger] players[i]).alive implies after.contains(
            players[i],
        ) by {
            if i < earlier.len() {
                assert(earlier[i] == players[i]);
                let k = choose|k: int| 0 <= k < before.len() && before[k] == players[i];
                assert(after[k] == players[i]);
            } else {
                assert(after[before.len() as int] == last);
            }
        }
        assert forall|k: int| 0 <= k < after.len() implies (#[trigger] after[k]).alive
            && players.contains(after[k]) by {
            if k < before.len() {
                assert(before[k] == after[k]);
                let i = choose|i: int| 0 <= i < earlier.len() && earlier[i] == before[k];
                assert(players[i] == after[k]);
            } else {
                assert(players[players.len() - 1] == after[k]);
            }
        }
    }
}

/// Those who are alive are asked once for each time that they stand in the list, and in its order: if
/// `places` are the places of those who are alive, from first to last, then the one who is asked at some
/// point is the one at that place.
pub proof fn law_asked_in_order(players: Seq<GamePlayer>, places: Seq<int>)
    requires
        forall|k: int|
            0 <= k < places.len() ==> 0 <= #[trigger] places[k] < players.len()
                && players[places[k]].alive,
        forall|a: int, b: int|
            0 <= a < b < places.len() ==> #[trigger] places[a] < #[trigger] places[b],
        forall|i: int|
            0 <= i < players.len() && (#[trigger] players[i]).alive ==> places.contains(i),
    ensures
        alive_players(players).len() == places.len(),
        forall|k: int|
            0 <= k < places.len() ==> #[trigger] alive_players(players)[k] == players[places[k]],
    decreases players.len(),
{
    if players.len() == 0 {
        assert(players =~= Seq::empty());
        law_next_asked(players, GamePlayer { id: 0, alive: true });
        if places.len() > 0 {
            assert(0 <= places[0] < players.len());
        }
    } else {
        let n = players.len() - 1;
        let earlier = players.drop_last();
        let last = players.last();
        assert(players =~= earlier.push(last));
        law_next_asked(earlier, last);
        if last.alive {
            assert(players[n].alive);
            let k = choose|k: int| 0 <= k < places.len() && places[k] == n;
            if k < places.len() - 1 {
                assert(places[k] < places[places.len() - 1]);
            }
            let before = places.drop_last();
            assert forall|j: int| 0 <= j < before.len() implies 0 <= #[trigger] before[j]
                < earlier.len() && earlier[before[j]].alive by {
                assert(before[j] == places[j]);
                assert(places[j] < places[places.len() - 1]);
            }
            assert forall|a: int, b: int|
                0 <= a < b < before.len() implies #[trigger] before[a] < #[trigger] before[b] by {
                assert(places[a] < places[b]);
            }
            assert forall|i: int|
                0 <= i < earlier.len() && (#[trigger] earlier[i]).alive implies before.contains(
                i,
            ) by {
                assert(players[i].alive);
                let j = choose|j: int| 0 <= j < places.len() && places[j] == i;
                assert(before[j] == i);
            }
            law_asked_in_order(earlier, before);
            assert forall|j: int| 0 <= j < places.len() implies #[trigger] alive_players(players)[j]
                == players[places[j]] by {
                if j < before.len() {
                    assert(before[j] == places[j]);
                    assert(alive_players(earlier)[j] == earlier[before[j]]);
                }
            }
        } else {
            assert forall|j: int| 0 <= j < places.len() implies 0 <= #[trigger] places[j]
                < earlier.len() && earlier[places[j]].alive by {
                assert(players[places[j]].alive);
            }
            assert forall|i: int|
                0 <= i < earlier.len() && (#[trigger] earlier[i]).alive implies places.contains(
                i,
            ) by {
                assert(players[i].alive);
            }
            law_asked_in_order(earlier, places);
            assert forall|j: int| 0 <= j < places.len() implies #[trigger] alive_players(players)[j]
                == players[places[j]] by {
                assert(alive_players(earlier)[j] == earlier[places[j]]);
            }
        }
    }
}

/// A name stands for the last planet that has it.
pub proof fn law_last_planet_counts(planets: Seq<(Seq<char>, usize)>, i: int)
    requires
        0 <= i < planets.len(),
        forall|j: int| i < j < planets.len() ==> (#[trigger] planets[j]).0 != planets[i].0,
    ensures
        planets_by_name(planets).contains_key(planets[i].0),
        planets_by_name(planets)[planets[i].0] == planets[i].1,
    decreases planets.len(),
{
    if i < planets.len() - 1 {
        let earlier = planets.drop_last();
        assert(planets[planets.len() - 1].0 != planets[i].0);
        assert forall|j: int| i < j < earlier.len() implies (#[trigger] earlier[j]).0
            != earlier[i].0 by {
            assert(planets[j].0 != planets[i].0);
        }
        law_last_planet_counts(earlier, i);
    }
}

/// A name that no planet has stands for none.
pub proof fn law_unknown_planet(planets: Seq<(Seq<char>, usize)>, name: Seq<char>)
    requires
        forall|i: int| 0 <= i < planets.len() ==> (#[trigger] planets[i]).0 != name,
    ensures
        !planets_by_name(planets).contains_key(name),
    decreases planets.len(),
{
    if planets.len() > 0 {
        let earlier = planets.drop_last();
        assert(planets[planets.len() - 1].0 != name);
        assert forall|i: int| 0 <= i < earlier.len() implies (#[trigger] earlier[i]).0 != name by {
            assert(planets[i].0 != name);
        }
        law_unknown_planet(earlier, name);
    }
}

/// The lists of moves and of planets say what stands in them, in order.
pub proof fn law_lists_of_moves(
    commands: Seq<Command>,
    tried: Seq<PlayerCommand>,
    planets: Seq<(String, usize)>,
)
    ensures
        command_views(commands).len() == commands.len(),
        forall|i: int|
            0 <= i < commands.len() ==> {
                let mv = #[trigger] command_views(commands)[i];
                &&& mv.origin == commands[i].origin@
                &&& mv.destination == commands[i].destination@
                &&& mv.ship_count == commands[i].ship_count
            },
        tried_views(tried).len() == tried.len(),
        forall|i: int|
            0 <= i < tried.len() ==> {
                let done = #[trigger] tried_views(tried)[i];
                &&& done.command.origin == tried[i].command.origin@
                &&& done.command.destination == tried[i].command.destination@
                &&& done.command.ship_count == tried[i].command.ship_count
                &&& done.error == tried[i].error
            },
        named_views(planets).len() == planets.len(),
        forall|i: int|
            0 <= i < planets.len() ==> (#[trigger] named_views(planets)[i]).0 == planets[i].0@
                && named_views(planets)[i].1 == planets[i].1,
{
}

/// How a match is to be played is known by its map and its number of turns.
pub proof fn law_config_view(config: MatchConfig)
    ensures
        config@.map_name == config.map_name@,
        config@.max_turns == config.max_turns,
{
}

/// Names stand for planets that are there exactly if each does.
pub proof fn law_known_names(
    names: Map<Seq<char>, usize>,
    mv: CommandView,
    name: Seq<char>,
    count: nat,
)
    ensures
        names_within(names, count) && names.contains_key(name) ==> names[name] < count,
        (forall|n: Seq<char>| #[trigger] names.contains_key(n) ==> names[n] < count)
            ==> names_within(names, count),
        !origin_within(names, mv, count) <==> names.contains_key(mv.origin) && names.contains_key(
            mv.destination,
        ) && names[mv.origin] >= count,
{
}

/// A player may think about a turn for one second.
pub proof fn law_turn_timeout()
    ensures
        TURN_TIMEOUT_MILLIS == 1000,
{
}

/// The ships that moves have sent off from a planet grow by those of each move that is made from it, and by
/// no others.
pub proof fn law_ships_sent(
    names: Map<Seq<char>, usize>,
    tried: Seq<PlayerCommandView>,
    next: PlayerCommandView,
    origin: usize,
)
    ensures
        ships_sent(names, Seq::empty(), origin) == 0,
        ships_sent(names, tried.push(next), origin) == ships_sent(names, tried, origin) + (
        if next.error is None && names[next.command.origin] == origin {
            next.command.ship_count as int
        } else {
            0int
        }),
{
    assert(tried.push(next).drop_last() =~= tried);
}

} // verus!
