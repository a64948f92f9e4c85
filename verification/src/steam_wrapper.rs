//! The command line of the wrapper that Steam starts in place of a game.
use crate::environment;
use crate::environment::Environment;
use crate::launch;
use crate::steam_launch_bridge::{SteamAppId, REDUNAR_GAMEMODE_ENV, REDUNAR_GAMESCOPE_ENV};
use crate::text;
use vstd::prelude::*;
use vstd::string::*;

verus! {

broadcast use vstd::string::group_string_axioms;

/// A wrapper invocation: the application, and the original command, which is
/// kept byte for byte.
#[derive(Debug)]
pub struct Invocation {
    pub app_id: Option<SteamAppId>,
    pub command: Vec<u8>,
    pub arguments: Vec<Vec<u8>>,
}

/// What an [`Invocation`] holds.
#[verifier::ext_equal]
pub ghost struct InvocationView {
    pub app_id: Option<u32>,
    pub command: Seq<u8>,
    pub arguments: Seq<Seq<u8>>,
}

impl View for Invocation {
    type V = InvocationView;

    open spec fn view(&self) -> InvocationView {
        InvocationView {
            app_id: match self.app_id {
                Some(app_id) => Some(app_id@),
                None => None,
            },
            command: self.command@,
            arguments: text::byte_views(self.arguments@),
        }
    }
}

/// The application that a prefix names. Any other prefix names none.
pub open spec fn prefix_app(prefix: Seq<Seq<u8>>) -> Option<u32> {
    if prefix.len() == 2 && prefix[0] == "--app-id".spec_bytes() {
        launch::forwarded_app(seq![prefix[1]], 0)
    } else {
        None
    }
}

/// What the arguments of the wrapper ask for.
pub open spec fn parsed_invocation(arguments: Seq<Seq<u8>>) -> Option<InvocationView> {
    let separator = text::first_index(arguments, "--".spec_bytes());
    if separator + 1 >= arguments.len() {
        None
    } else {
        Some(
            InvocationView {
                app_id: prefix_app(arguments.take(separator)),
                command: arguments[separator + 1],
                arguments: arguments.skip(separator + 2),
            },
        )
    }
}

impl Invocation {
    /// Reads the arguments. A malformed prefix only turns activation off.
    pub fn parse(arguments: &[Vec<u8>]) -> (result: Option<Self>)
        ensures
            match result {
                Some(invocation) => parsed_invocation(text::byte_views(arguments@)) == Some(
                    invocation@,
                ),
                None => parsed_invocation(text::byte_views(arguments@)) is None,
            },
    {
        let ghost all = text::byte_views(arguments@);
        let ghost dashes = "--".spec_bytes();
        let mut separator: usize = 0;
        while separator < arguments.len() && !text::same_bytes(
            arguments[separator].as_slice(),
            "--".as_bytes(),
        )
            invariant
                separator <= arguments@.len(),
                all == text::byte_views(arguments@),
                dashes == "--".spec_bytes(),
                forall|i: int| 0 <= i < separator ==> #[trigger] all[i] != dashes,
            decreases arguments@.len() - separator,
        {
            assert(all[separator as int] == arguments@[separator as int]@);
            separator = separator + 1;
        }
        proof {
            text::lemma_first_index(all, dashes);
            if separator < all.len() {
                assert(all[separator as int] == arguments@[separator as int]@);
            }
            text::lemma_first_index_is(all, dashes, separator as int);
        }
        if separator >= arguments.len() || separator + 1 >= arguments.len() {
            return None;
        }
        let ghost prefix = all.take(separator as int);
        let mut app_id: Option<SteamAppId> = None;
        if separator == 2 {
            assert(prefix[0] == arguments@[0]@);
            assert(prefix[1] == arguments@[1]@);
            if text::same_bytes(arguments[0].as_slice(), "--app-id".as_bytes()) {
                if let Some(value) = launch::app_id_of(arguments[1].as_slice()) {
                    app_id = SteamAppId::new(value);
                }
            }
        }
        let command = vstd::slice::slice_to_vec(arguments[separator + 1].as_slice());
        let mut rest: Vec<Vec<u8>> = Vec::new();
        let mut index: usize = separator + 2;
        while index < arguments.len()
            invariant
                separator + 2 <= index <= arguments@.len(),
                all == text::byte_views(arguments@),
                text::byte_views(rest@) == all.subrange(separator + 2, index as int),
            decreases arguments@.len() - index,
        {
            let ghost before = text::byte_views(rest@);
            rest.push(vstd::slice::slice_to_vec(arguments[index].as_slice()));
            assert(text::byte_views(rest@) =~= before.push(arguments@[index as int]@));
            assert(all.subrange(separator + 2, index + 1) =~= before.push(all[index as int]));
            index = index + 1;
        }
        assert(all.subrange(separator + 2, index as int) =~= all.skip(separator + 2));
        Some(Invocation { app_id, command, arguments: rest })
    }
}

/// Which launcher a game is started through.
#[derive(Clone, Copy, Debug, PartialEq, Eq, Structural)]
pub enum LaunchVehicle {
    Direct,
    Gamescope,
    GameMode,
}

/// Whether a switch is on: an assignment of the activation comes before an
/// inherited one.
pub open spec fn switched_on(
    managed: Map<Seq<u8>, Seq<u8>>,
    inherited: Map<Seq<u8>, Seq<u8>>,
    name: Seq<u8>,
) -> bool {
    match environment::value_of(managed, name) {
        Some(value) => value == "1".spec_bytes(),
        None => environment::value_of(inherited, name) == Some("1".spec_bytes()),
    }
}

/// Whether a launcher is asked for.
pub fn is_switched_on(managed: &Environment, inherited: &Environment, name: &str) -> (result: bool)
    ensures
        result == switched_on(managed@, inherited@, name.spec_bytes()),
{
    match managed.get(name.as_bytes()) {
        Some(value) => text::same_bytes(value, "1".as_bytes()),
        None => match inherited.get(name.as_bytes()) {
            Some(value) => text::same_bytes(value, "1".as_bytes()),
            None => false,
        },
    }
}

/// The launcher for a game, given what is switched on and which of them
/// answered.
pub open spec fn chosen_vehicle(
    managed: Map<Seq<u8>, Seq<u8>>,
    inherited: Map<Seq<u8>, Seq<u8>>,
    gamescope_answers: bool,
    gamemode_answers: bool,
) -> LaunchVehicle {
    if switched_on(managed, inherited, REDUNAR_GAMESCOPE_ENV.spec_bytes()) && gamescope_answers {
        LaunchVehicle::Gamescope
    } else if switched_on(managed, inherited, REDUNAR_GAMEMODE_ENV.spec_bytes())
        && gamemode_answers {
        LaunchVehicle::GameMode
    } else {
        LaunchVehicle::Direct
    }
}

/// Picks the launcher, given which of them answered.
pub fn launch_vehicle(
    managed: &Environment,
    inherited: &Environment,
    gamescope_answers: bool,
    gamemode_answers: bool,
) -> (result: LaunchVehicle)
    ensures
        result == chosen_vehicle(managed@, inherited@, gamescope_answers, gamemode_answers),
        result == (if switched_on(managed@, inherited@, REDUNAR_GAMESCOPE_ENV.spec_bytes())
            && gamescope_answers {
            LaunchVehicle::Gamescope
        } else if switched_on(managed@, inherited@, REDUNAR_GAMEMODE_ENV.spec_bytes())
            && gamemode_answers {
            LaunchVehicle::GameMode
        } else {
            LaunchVehicle::Direct
        }),
{
    if is_switched_on(managed, inherited, REDUNAR_GAMESCOPE_ENV) && gamescope_answers {
        LaunchVehicle::Gamescope
    } else if is_switched_on(managed, inherited, REDUNAR_GAMEMODE_ENV) && gamemode_answers {
        LaunchVehicle::GameMode
    } else {
        LaunchVehicle::Direct
    }
}

/// The command line that starts a game through a launcher.
pub open spec fn vehicle_line(
    vehicle: LaunchVehicle,
    command: Seq<u8>,
    arguments: Seq<Seq<u8>>,
) -> Seq<Seq<u8>> {
    match vehicle {
        LaunchVehicle::Direct => seq![command] + arguments,
        LaunchVehicle::Gamescope => seq![
            "gamescope".spec_bytes(),
            "-f".spec_bytes(),
            "--".spec_bytes(),
            command,
        ] + arguments,
        LaunchVehicle::GameMode => seq!["gamemoderun".spec_bytes(), command] + arguments,
    }
}

/// The program and arguments to run.
pub fn command_line(vehicle: LaunchVehicle, invocation: Invocation) -> (result: Vec<Vec<u8>>)
    ensures
        text::byte_views(result@) == vehicle_line(
            vehicle,
            invocation@.command,
            invocation@.arguments,
        ),
{
    let mut line: Vec<Vec<u8>> = Vec::new();
    match vehicle {
        LaunchVehicle::Direct => {},
        LaunchVehicle::Gamescope => {
            line.push(vstd::slice::slice_to_vec("gamescope".as_bytes()));
            line.push(vstd::slice::slice_to_vec("-f".as_bytes()));
            line.push(vstd::slice::slice_to_vec("--".as_bytes()));
        },
        LaunchVehicle::GameMode => {
            line.push(vstd::slice::slice_to_vec("gamemoderun".as_bytes()));
        },
    }
    let mut arguments = invocation.arguments;
    line.push(invocation.command);
    line.append(&mut arguments);
    assert(text::byte_views(line@) =~= vehicle_line(
        vehicle,
        invocation@.command,
        invocation@.arguments,
    ));
    line
}

/// The command that Steam gave is run unchanged, whatever the prefix says and
/// whichever launcher is picked: it is the end of the command line.
pub proof fn command_is_kept(arguments: Seq<Seq<u8>>, vehicle: LaunchVehicle)
    requires
        parsed_invocation(arguments) is Some,
    ensures
        ({
            let invocation = parsed_invocation(arguments)->0;
            let separator = text::first_index(arguments, "--".spec_bytes());
            let line = vehicle_line(vehicle, invocation.command, invocation.arguments);
            let given = arguments.skip(separator + 1);
            &&& given.is_suffix_of(line)
            &&& vehicle == LaunchVehicle::Direct ==> line == given
        }),
{
    let invocation = parsed_invocation(arguments)->0;
    let separator = text::first_index(arguments, "--".spec_bytes());
    text::lemma_first_index(arguments, "--".spec_bytes());
    let line = vehicle_line(vehicle, invocation.command, invocation.arguments);
    let given = arguments.skip(separator + 1);
    assert(given =~= seq![invocation.command] + invocation.arguments);
    assert(line.skip(line.len() - given.len()) =~= given);
}

/// A wrapped command is found behind the first two dashes, with its own
/// arguments, and with the app number where that stands before them.
pub proof fn wrapped_commands_are_found(
    app_id: u32,
    command: Seq<u8>,
    arguments: Seq<Seq<u8>>,
)
    requires
        app_id != 0,
    ensures
        parsed_invocation(
            seq![
                "--app-id".spec_bytes(),
                vstd::utf8::encode_utf8(text::decimal(app_id as nat)),
                "--".spec_bytes(),
                command,
            ] + arguments,
        ) == Some(InvocationView { app_id: Some(app_id), command, arguments }),
        parsed_invocation(seq!["--".spec_bytes(), command] + arguments) == Some(
            InvocationView { app_id: None, command, arguments },
        ),
        parsed_invocation(seq!["--".spec_bytes()]) is None,
{
    let number = vstd::utf8::encode_utf8(text::decimal(app_id as nat));
    let given = seq!["--app-id".spec_bytes(), number, "--".spec_bytes(), command] + arguments;
    let bare = seq!["--".spec_bytes(), command] + arguments;
    reveal_strlit("--app-id");
    reveal_strlit("--");
    text::decimal_round_trip(app_id as nat);
    vstd::utf8::encode_utf8_decode_utf8(text::decimal(app_id as nat));
    vstd::utf8::encode_utf8_valid_utf8(text::decimal(app_id as nat));
    vstd::utf8::encode_utf8_decode_utf8("--"@);
    vstd::utf8::encode_utf8_decode_utf8("--app-id"@);
    assert("--"@.len() != "--app-id"@.len());
    assert(text::is_digit(text::decimal(app_id as nat)[0]));
    assert("--"@[0] == '-');
    assert(given[0] != "--".spec_bytes());
    assert(given[1] != "--".spec_bytes());
    assert(given[2] == "--".spec_bytes());
    text::lemma_first_index_is(given, "--".spec_bytes(), 2);
    assert(given.take(2) =~= seq!["--app-id".spec_bytes(), number]);
    assert(given.skip(4) =~= arguments);
    assert(given[3] == command);
    assert(bare[0] == "--".spec_bytes());
    text::lemma_first_index_is(bare, "--".spec_bytes(), 0);
    assert(bare.skip(2) =~= arguments);
    assert(bare.take(0) =~= Seq::<Seq<u8>>::empty());
    assert(bare[1] == command);
    let alone = seq!["--".spec_bytes()];
    text::lemma_first_index_is(alone, "--".spec_bytes(), 0);
}

/// Gamescope runs the command in full screen behind two dashes, GameMode as its
/// first argument.
pub proof fn vehicles_run_the_command(command: Seq<u8>, arguments: Seq<Seq<u8>>)
    ensures
        vehicle_line(LaunchVehicle::Direct, command, arguments) == seq![command] + arguments,
        vehicle_line(LaunchVehicle::Gamescope, command, arguments) == seq![
            "gamescope".spec_bytes(),
            "-f".spec_bytes(),
            "--".spec_bytes(),
        ] + (seq![command] + arguments),
        vehicle_line(LaunchVehicle::GameMode, command, arguments) == seq![
            "gamemoderun".spec_bytes(),
        ] + (seq![command] + arguments),
{
    assert(vehicle_line(LaunchVehicle::Gamescope, command, arguments) =~= seq![
        "gamescope".spec_bytes(),
        "-f".spec_bytes(),
        "--".spec_bytes(),
    ] + (seq![command] + arguments));
    assert(vehicle_line(LaunchVehicle::GameMode, command, arguments) =~= seq![
        "gamemoderun".spec_bytes(),
    ] + (seq![command] + arguments));
}

/// What is chosen for a game counts before what the environment says, and only
/// a one switches anything on.
pub proof fn choices_count_before_the_environment(
    managed: Map<Seq<u8>, Seq<u8>>,
    inherited: Map<Seq<u8>, Seq<u8>>,
    name: Seq<u8>,
    value: Seq<u8>,
)
    ensures
        switched_on(managed.insert(name, value), inherited, name) <==> value == "1".spec_bytes(),
        !managed.contains_key(name) ==> (switched_on(managed, inherited.insert(name, value), name)
            <==> value == "1".spec_bytes()),
        !managed.contains_key(name) && !inherited.contains_key(name) ==> !switched_on(
            managed,
            inherited,
            name,
        ),
{
}

/// Gamescope is used where it is switched on and answers, else GameMode where
/// that is. A game that neither is switched on for is started as it is.
pub proof fn switches_choose_the_vehicle(
    managed: Map<Seq<u8>, Seq<u8>>,
    inherited: Map<Seq<u8>, Seq<u8>>,
    gamescope_answers: bool,
    gamemode_answers: bool,
)
    ensures
        ({
            let gamescope = switched_on(managed, inherited, "REDUNAR_GAMESCOPE".spec_bytes());
            let gamemode = switched_on(managed, inherited, "REDUNAR_GAMEMODE".spec_bytes());
            let vehicle = chosen_vehicle(
                managed,
                inherited,
                gamescope_answers,
                gamemode_answers,
            );
            &&& vehicle == LaunchVehicle::Gamescope <==> gamescope && gamescope_answers
            &&& vehicle == LaunchVehicle::GameMode <==> gamemode && gamemode_answers && !(gamescope
                && gamescope_answers)
            &&& !gamescope && !gamemode ==> vehicle == LaunchVehicle::Direct
        }),
{
}

} // verus!
