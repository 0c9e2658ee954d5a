//! Per-command descriptors: the immutable configuration of one supervised
//! shell command, and the rendering of its output prefix.

use std::fmt::Write as FmtWrite;
use vstd::prelude::*;
use vstd::string::StrSliceExecFns;
use vstd::string::StringExecFns;
use crate::colors::{colorize, spec_format_ok, piece_ok, ColorError};
use crate::config::{Config, ConfigError};
use crate::text::{
    list_contains, replace_str, spec_digits, spec_replace, spec_split, usize_string, u64_string,
};

verus! {

/// Whether chrono accepts a timestamp format string: the name of the
/// outcome of formatting the current local time with it, which depends on
/// the format string alone.
pub uninterp spec fn time_format_ok(fmt: Seq<char>) -> bool;

/// Relies on chrono's `Local::now` and `DateTime::format`: writing the
/// formatted current time fails exactly when the format string itself is
/// rejected (an invalid item), independent of the moment of the call; the
/// written text varies with that moment.
#[verifier::external_body]
pub(crate) fn now_formatted(fmt: &str) -> (r: Option<String>)
    ensures
        r is Some <==> time_format_ok(fmt@),
{
    let mut buf = String::new();
    match write!(buf, "{}", chrono::Local::now().format(fmt)) {
        Ok(()) => Some(buf),
        Err(_) => None,
    }
}

/// Holds the information needed to supervise a single process and format
/// its output.
#[derive(Debug)]
pub struct Command {
    /// Output from the process is passed through without being captured.
    pub raw: bool,
    /// Output from the process is not displayed at all.
    pub hide: bool,
    /// The full shell command to be executed, including all arguments.
    pub command: String,
    /// The process is restarted on failure no matter the remaining budget.
    pub restart_indefinitely: bool,
    /// How many restarts the command starts out with; negative means unlimited.
    pub restart_tries: i32,
    /// The rendered prefix, with only {time} and {pid} left to substitute.
    pub prefix: String,
    /// Timestamp format for the {time} placeholder.
    pub timestamp_format: String,
}

/// The mathematical content of a `Command`.
pub struct CmdView {
    pub raw: bool,
    pub hide: bool,
    pub command: Seq<char>,
    pub restart_indefinitely: bool,
    pub restart_tries: int,
    pub prefix: Seq<char>,
    pub timestamp_format: Seq<char>,
}

impl View for Command {
    type V = CmdView;

    open spec fn view(&self) -> CmdView {
        CmdView {
            raw: self.raw,
            hide: self.hide,
            command: self.command@,
            restart_indefinitely: self.restart_indefinitely,
            restart_tries: self.restart_tries as int,
            prefix: self.prefix@,
            timestamp_format: self.timestamp_format@,
        }
    }
}

/// `prefix` with `{time}` replaced by `t` and `{pid}` by the digits of `pid`.
pub open spec fn spec_prefix_rendered(prefix: Seq<char>, t: Seq<char>, pid: nat) -> Seq<char> {
    spec_replace(spec_replace(prefix, "{time}"@, t), "{pid}"@, spec_digits(pid))
}

/// `prefix` with `{index}`, `{command}` (shortened) and `{name}` substituted,
/// in that order.
pub open spec fn spec_prepared_prefix(
    prefix: Seq<char>,
    prefix_length: int,
    name: Seq<char>,
    idx: int,
    cmd: Seq<char>,
) -> Seq<char> {
    spec_replace(
        spec_replace(
            spec_replace(prefix, "{index}"@, spec_digits(idx as nat)),
            "{command}"@,
            spec_shorten(prefix_length, cmd),
        ),
        "{name}"@,
        name,
    )
}

/// `name` cut down to roughly `pl` characters with a two-sided ellipsis.
pub open spec fn spec_shorten(pl: int, name: Seq<char>) -> Seq<char> {
    if name.len() <= pl {
        name
    } else {
        let part = if pl / 2 >= 1 {
            pl / 2 - 1
        } else {
            0
        };
        let left = if part + part + 2 < pl {
            part + 1
        } else {
            part
        };
        name.take(left) + seq!['.', '.'] + name.skip(name.len() - part)
    }
}

impl Command {
    /// The timestamp format was accepted by chrono, so the prefix can
    /// always be rendered; and a finite restart budget is non-negative.
    pub open spec fn wf(&self) -> bool {
        &&& time_format_ok(self@.timestamp_format)
        &&& (!self@.restart_indefinitely ==> self@.restart_tries >= 0)
    }

    /// The command's prefix at this moment, for the process `pid`: the
    /// stored template with `{time}` replaced by the current timestamp and
    /// `{pid}` by the given pid.
    pub fn prefix(&self, pid: u32) -> (r: String)
        requires
            self.wf(),
        ensures
            exists|t: Seq<char>| r@ == spec_prefix_rendered(self@.prefix, t, pid as nat),
    {
        let t = match now_formatted(self.timestamp_format.as_str()) {
            Some(t) => t,
            None => {
                proof {
                    assert(false);
                }
                String::new()
            },
        };
        proof {
            reveal_strlit("{time}");
            reveal_strlit("{pid}");
        }
        let digits = u64_string(pid as u64);
        let step1 = replace_str(self.prefix.as_str(), "{time}", t.as_str());
        let r = replace_str(step1.as_str(), "{pid}", digits.as_str());
        assert(r@ == spec_prefix_rendered(self@.prefix, t@, pid as nat));
        r
    }

    /// `name`, unless it is longer than `prefix_length` characters, in
    /// which case its middle is elided with `..`, splitting the length
    /// budget evenly and giving a leftover character to the left half.
    pub fn shorten(prefix_length: usize, name: &str) -> (r: String)
        ensures
            r@ == spec_shorten(prefix_length as int, name@),
    {
        let n = name.unicode_len();
        if n <= prefix_length {
            return String::from_str(name);
        }
        let half = prefix_length / 2;
        let part: usize = if half >= 1 {
            half - 1
        } else {
            0
        };
        let left: usize = if part + part + 2 < prefix_length {
            part + 1
        } else {
            part
        };
        let left_part = name.substring_char(0, left);
        let right_part = name.substring_char(n - part, n);
        let r = String::from_str(left_part).concat("..").concat(right_part);
        proof {
            reveal_strlit("..");
            assert(r@ =~= spec_shorten(prefix_length as int, name@)) by {
                assert(".."@ =~= seq!['.', '.']);
            }
        }
        r
    }

    /// Output from this command is not shown.
    pub fn disable_output(&self) -> (r: bool)
        ensures
            r == (self@.raw || self@.hide),
    {
        self.raw || self.hide
    }
}

/// What `prepare_command` promises of each built descriptor.
pub open spec fn cmd_prepared(c: CmdView, cfg: &Config, idx: int, cmd: Seq<char>) -> bool {
    &&& c.command == cmd
    &&& c.raw == cfg.raw
    &&& c.hide == (cfg.hide.deep_view().contains(cfg.names.deep_view()[idx])
        || cfg.hide.deep_view().contains(spec_digits(idx as nat)))
    &&& c.restart_tries == cfg.restart_tries as int
    &&& c.restart_indefinitely == (cfg.restart_tries < 0)
    &&& c.timestamp_format == cfg.timestamp_format@
    &&& (cfg.no_color ==> c.prefix == spec_prepared_prefix(
        cfg.prefix@,
        cfg.prefix_length as int,
        cfg.names.deep_view()[idx],
        idx,
        cmd,
    ))
}

/// Helper to generate a list of `Command`s from a `Config`.
pub struct Commands;

impl Commands {
    /// One descriptor per shell command, each with its prefix rendered up
    /// front. Fails exactly when a color spec holds an unknown modifier
    /// (and colors are not disabled).
    pub fn from(config: &Config, commands: &[String]) -> (r: Result<Vec<Command>, ConfigError>)
        requires
            config.names@.len() >= commands@.len(),
            config.prefix_colors@.len() >= commands@.len(),
            time_format_ok(config.timestamp_format@),
        ensures
            r is Ok <==> (config.no_color || forall|i: int|
                0 <= i < commands@.len() ==> spec_format_ok(
                    #[trigger] config.prefix_colors.deep_view()[i],
                )),
            r matches Ok(v) ==> {
                &&& v@.len() == commands@.len()
                &&& forall|i: int|
                    0 <= i < v@.len() ==> cmd_prepared(
                        (#[trigger] v@[i])@,
                        config,
                        i,
                        commands@[i]@,
                    )
                &&& forall|i: int| 0 <= i < v@.len() ==> (#[trigger] v@[i]).wf()
            },
            r matches Err(e) ==> (e matches ConfigError::UnknownModifier(m) && !piece_ok(m@)),
    {
        let mut out: Vec<Command> = Vec::new();
        let mut idx: usize = 0;
        while idx < commands.len()
            invariant
                idx <= commands@.len(),
                out@.len() == idx,
                config.names@.len() >= commands@.len(),
                config.prefix_colors@.len() >= commands@.len(),
                time_format_ok(config.timestamp_format@),
                forall|i: int|
                    0 <= i < idx ==> cmd_prepared((#[trigger] out@[i])@, config, i, commands@[i]@),
                forall|i: int| 0 <= i < idx ==> (#[trigger] out@[i]).wf(),
                forall|i: int|
                    0 <= i < idx ==> (config.no_color || spec_format_ok(
                        #[trigger] config.prefix_colors.deep_view()[i],
                    )),
            decreases commands@.len() - idx,
        {
            let cmd = match Self::prepare_command(config, idx, commands[idx].as_str()) {
                Ok(c) => c,
                Err(e) => {
                    return Err(e);
                },
            };
            out.push(cmd);
            idx += 1;
        }
        Ok(out)
    }

    /// Builds the descriptor for command number `idx`: renders the static
    /// parts of the prefix, applies the configured colors, and decides
    /// whether its output is hidden.
    fn prepare_command(config: &Config, idx: usize, cmd: &str) -> (r: Result<Command, ConfigError>)
        requires
            idx < config.names@.len(),
            idx < config.prefix_colors@.len(),
            time_format_ok(config.timestamp_format@),
        ensures
            r is Ok <==> (config.no_color || spec_format_ok(
                config.prefix_colors.deep_view()[idx as int],
            )),
            r matches Ok(c) ==> cmd_prepared(c@, config, idx as int, cmd@) && c.wf(),
            r matches Err(e) ==> (e matches ConfigError::UnknownModifier(m) && !piece_ok(m@)),
    {
        let name = &config.names[idx];
        let idx_str = usize_string(idx);
        let hide = list_contains(&config.hide, name.as_str()) || list_contains(
            &config.hide,
            idx_str.as_str(),
        );

        proof {
            reveal_strlit("{index}");
            reveal_strlit("{command}");
            reveal_strlit("{name}");
        }
        let shortened = Command::shorten(config.prefix_length, cmd);
        let p1 = replace_str(config.prefix.as_str(), "{index}", idx_str.as_str());
        let p2 = replace_str(p1.as_str(), "{command}", shortened.as_str());
        let p3 = replace_str(p2.as_str(), "{name}", name.as_str());

        let prefix = if config.no_color {
            p3
        } else {
            match colorize(idx, config.prefix_colors[idx].as_str(), p3.as_str()) {
                Ok(s) => s,
                Err(ColorError::UnknownModifier(m)) => {
                    return Err(ConfigError::UnknownModifier(m));
                },
            }
        };

        Ok(
            Command {
                prefix,
                hide,
                raw: config.raw,
                timestamp_format: config.timestamp_format.clone(),
                command: String::from_str(cmd),
                restart_tries: config.restart_tries,
                restart_indefinitely: config.restart_tries < 0,
            },
        )
    }
}

} // verus!
