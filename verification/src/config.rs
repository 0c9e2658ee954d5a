//! The validated run configuration: the expanded name and color lists,
//! the per-command descriptors, and the lifecycle policy flags.

use vstd::prelude::*;
use vstd::string::StringExecFns;
use crate::cli::Args;
use crate::colors::{piece_ok, spec_format_ok};
use crate::command::{cmd_prepared, now_formatted, time_format_ok, Command, Commands};
use crate::text::{spec_digits, spec_split, split_str, usize_string};

verus! {

/// Why a configuration was rejected before any process was spawned.
#[derive(Debug, PartialEq, Eq)]
pub enum ConfigError {
    /// Both kill-others and kill-others-on-fail were requested; the former
    /// implies the latter.
    ConflictingKillFlags,
    /// No commands were given.
    NoCommands,
    /// A piece of a color spec is not a recognised modifier.
    UnknownModifier(String),
    /// chrono rejected the timestamp format string.
    BadTimestampFormat,
}

/// Everything the supervisor needs to run, validated and expanded.
#[derive(Debug)]
pub struct Config {
    /// One descriptor per shell command.
    pub commands: Vec<Command>,
    /// One display name per command.
    pub names: Vec<String>,
    /// One color spec per command.
    pub prefix_colors: Vec<String>,
    /// Delay before a restart, in milliseconds.
    pub restart_after: u64,
    /// Names or indices of commands whose output is hidden.
    pub hide: Vec<String>,
    /// Prefix template.
    pub prefix: String,
    /// Pass output through uncaptured.
    pub raw: bool,
    /// Limit on the rendered length of {command}.
    pub prefix_length: usize,
    /// Disables colors in prefixes.
    pub no_color: bool,
    /// Timestamp format for {time}.
    pub timestamp_format: String,
    /// Restart budget per command; negative means unlimited.
    pub restart_tries: i32,
    /// Kill other processes when one exits.
    pub kill_others: bool,
    /// Kill other processes when one exits with a non-zero status.
    pub kill_others_on_fail: bool,
}

/// `v` extended to at least `count` elements by repeating its last one.
pub open spec fn spec_pad_last(v: Seq<Seq<char>>, count: int) -> Seq<Seq<char>>
    decreases count - v.len(),
{
    if v.len() >= count || v.len() == 0 {
        v
    } else {
        spec_pad_last(v.push(v.last()), count)
    }
}

/// `input` split at `separator`, padded to `count` pieces by repeating the
/// last piece.
pub open spec fn spec_maybe_repeat(input: Seq<char>, separator: char, count: int) -> Seq<
    Seq<char>,
> {
    spec_pad_last(spec_split(input, separator), count)
}

/// The default names when none are supplied: the command indices.
pub open spec fn spec_index_names(count: int) -> Seq<Seq<char>> {
    Seq::new(count as nat, |k: int| spec_digits(k as nat))
}

/// Splits `input` at `separator`; if that yields fewer than `count` pieces,
/// the last piece is repeated until there are `count`.
pub fn maybe_repeat(input: &str, separator: char, count: usize) -> (r: Vec<String>)
    ensures
        r.deep_view() == spec_maybe_repeat(input@, separator, count as int),
        r@.len() >= count,
{
    let mut result = split_str(input, separator);
    proof {
        crate::text::lemma_split_from_nonempty(input@, separator, 0);
        assert(result@.len() == result.deep_view().len());
    }
    let last = result[result.len() - 1].clone();
    while count > result.len()
        invariant
            result@.len() >= 1,
            last@ == result.deep_view().last(),
            spec_pad_last(result.deep_view(), count as int) == spec_maybe_repeat(
                input@,
                separator,
                count as int,
            ),
        decreases count - result@.len(),
    {
        let ghost old_deep = result.deep_view();
        let cloned = last.clone();
        result.push(cloned);
        proof {
            assert(result.deep_view() =~~= old_deep.push(last@));
        }
    }
    result
}

impl Config {
    /// The parts of a configuration that the supervisor relies on: every
    /// command can render its prefix.
    pub open spec fn wf(&self) -> bool {
        &&& time_format_ok(self.timestamp_format@)
        &&& forall|i: int| 0 <= i < self.commands@.len() ==> (#[trigger] self.commands@[i]).wf()
    }

    /// The names list after expansion: what the user supplied, split and
    /// padded, or the command indices.
    pub open spec fn spec_names_of(args: &Args) -> Seq<Seq<char>> {
        match args.names {
            Some(s) => spec_maybe_repeat(s@, args.name_separator, args.commands@.len() as int),
            None => spec_index_names(args.commands@.len() as int),
        }
    }

    /// The hide list after expansion.
    pub open spec fn spec_hide_of(args: &Args) -> Seq<Seq<char>> {
        match args.hide {
            Some(h) => spec_split(h@, ','),
            None => Seq::empty(),
        }
    }

    /// The color specs after expansion.
    pub open spec fn spec_colors_of(args: &Args) -> Seq<Seq<char>> {
        spec_maybe_repeat(args.prefix_colors@, ',', args.commands@.len() as int)
    }

    /// Validates and expands the parsed arguments. Rejected exactly when
    /// the two kill flags conflict, chrono refuses the timestamp format, a
    /// color spec holds an unknown modifier, or no commands were given.
    pub fn from_args(args: Args) -> (r: Result<Config, ConfigError>)
        ensures
            r is Ok <==> {
                &&& !(args.kill_others && args.kill_others_on_fail)
                &&& time_format_ok(args.timestamp_format@)
                &&& args.commands@.len() > 0
                &&& (args.no_color || forall|i: int|
                    0 <= i < args.commands@.len() ==> spec_format_ok(
                        #[trigger] Self::spec_colors_of(&args)[i],
                    ))
            },
            (args.kill_others && args.kill_others_on_fail) ==> r == Err::<
                Config,
                ConfigError,
            >(ConfigError::ConflictingKillFlags),
            (!(args.kill_others && args.kill_others_on_fail) && !time_format_ok(
                args.timestamp_format@,
            )) ==> r == Err::<Config, ConfigError>(ConfigError::BadTimestampFormat),
            (!(args.kill_others && args.kill_others_on_fail) && time_format_ok(
                args.timestamp_format@,
            ) && !(r is Ok) && (args.no_color || forall|i: int|
                0 <= i < args.commands@.len() ==> spec_format_ok(
                    #[trigger] Self::spec_colors_of(&args)[i],
                ))) ==> r == Err::<Config, ConfigError>(ConfigError::NoCommands),
            r matches Err(ConfigError::UnknownModifier(m)) ==> !piece_ok(m@),
            r matches Ok(c) ==> {
                &&& c.wf()
                &&& c.commands@.len() == args.commands@.len()
                &&& forall|i: int|
                    0 <= i < c.commands@.len() ==> cmd_prepared(
                        (#[trigger] c.commands@[i])@,
                        &c,
                        i,
                        args.commands@[i]@,
                    )
                &&& c.names.deep_view() == Self::spec_names_of(&args)
                &&& c.prefix_colors.deep_view() == Self::spec_colors_of(&args)
                &&& c.hide.deep_view() == Self::spec_hide_of(&args)
                &&& c.restart_after == args.restart_after
                &&& c.prefix@ == args.prefix@
                &&& c.raw == args.raw
                &&& c.prefix_length == args.prefix_length
                &&& c.no_color == args.no_color
                &&& c.timestamp_format@ == args.timestamp_format@
                &&& c.restart_tries == args.restart_tries
                &&& c.kill_others == args.kill_others
                &&& c.kill_others_on_fail == args.kill_others_on_fail
            },
    {
        if args.kill_others && args.kill_others_on_fail {
            return Err(ConfigError::ConflictingKillFlags);
        }
        match now_formatted(args.timestamp_format.as_str()) {
            Some(_) => (),
            None => {
                return Err(ConfigError::BadTimestampFormat);
            },
        }

        let count = args.commands.len();
        let names: Vec<String> = match &args.names {
            None => {
                let mut v: Vec<String> = Vec::new();
                let mut i: usize = 0;
                while i < count
                    invariant
                        i <= count,
                        v.deep_view() =~= spec_index_names(i as int),
                    decreases count - i,
                {
                    let ghost old_deep = v.deep_view();
                    v.push(usize_string(i));
                    proof {
                        assert(v.deep_view() =~~= old_deep.push(spec_digits(i as nat)));
                        assert(v.deep_view() =~~= spec_index_names(i + 1));
                    }
                    i += 1;
                }
                v
            },
            Some(s) => maybe_repeat(s.as_str(), args.name_separator, count),
        };
        assert(names.deep_view() == Self::spec_names_of(&args));
        assert(names@.len() >= count) by {
            if args.names is None {
                assert(names.deep_view().len() == count as int);
            }
        }

        let prefix_colors = maybe_repeat(args.prefix_colors.as_str(), ',', count);

        let hide: Vec<String> = match &args.hide {
            Some(h) => split_str(h.as_str(), ','),
            None => {
                let v: Vec<String> = Vec::new();
                assert(v.deep_view() =~~= Seq::<Seq<char>>::empty());
                v
            },
        };

        let mut config = Config {
            commands: Vec::new(),
            names,
            hide,
            prefix_colors,
            restart_after: args.restart_after,
            prefix: args.prefix,
            raw: args.raw,
            prefix_length: args.prefix_length,
            no_color: args.no_color,
            timestamp_format: args.timestamp_format,
            restart_tries: args.restart_tries,
            kill_others: args.kill_others,
            kill_others_on_fail: args.kill_others_on_fail,
        };

        let built = match Commands::from(&config, args.commands.as_slice()) {
            Ok(v) => v,
            Err(e) => {
                proof {
                    assert(config.prefix_colors.deep_view() == Self::spec_colors_of(&args));
                    assert(!(args.no_color || forall|i: int|
                        0 <= i < args.commands@.len() ==> spec_format_ok(
                            #[trigger] Self::spec_colors_of(&args)[i],
                        )));
                }
                return Err(e);
            },
        };
        config.commands = built;

        if config.commands.len() == 0 {
            return Err(ConfigError::NoCommands);
        }
        Ok(config)
    }
}

} // verus!
