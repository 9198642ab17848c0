//! The command lines of the programs.

use vstd::prelude::*;

use crate::text;
use crate::text::{chars_of, parse_unsigned, same};

verus! {

/// How to use the controller.
pub const CONTROLLER_USAGE: &'static str = "usage: controller --config <config.toml>";

/// How to use a receiver.
pub const RECEIVER_USAGE: &'static str = "usage: receiver --config <config.toml> --cobo-id <k>";

/// How to use the program that writes sample messages.
pub const SAMPLE_USAGE: &'static str = "usage: ws_proto_sample --out <path>";

/// The value of the last `flag`, where the arguments from `i` on are flags with values.
pub open spec fn last_value(raw: Seq<Seq<char>>, i: int, flag: Seq<char>, so_far: Option<Seq<char>>) -> Option<
    Seq<char>,
>
    decreases raw.len() - i,
{
    if i + 1 >= raw.len() {
        so_far
    } else {
        last_value(
            raw,
            i + 2,
            flag,
            if raw[i] == flag {
                Some(raw[i + 1])
            } else {
                so_far
            },
        )
    }
}

/// Why the arguments from `i` on are not flags with values, if they are not: the first that is no
/// flag, or that has no value, or that has one that is not accepted. `number` is the flag whose
/// value is a number.
pub open spec fn flag_problem(
    raw: Seq<Seq<char>>,
    i: int,
    flag: Seq<char>,
    needs: Seq<char>,
    number: Option<Seq<char>>,
) -> Option<Seq<char>>
    decreases raw.len() - i,
{
    if i >= raw.len() {
        None
    } else if raw[i] == flag {
        if i + 1 >= raw.len() {
            Some(flag + " requires "@ + needs)
        } else {
            flag_problem(raw, i + 2, flag, needs, number)
        }
    } else if number is Some && raw[i] == number->0 {
        if i + 1 >= raw.len() {
            Some(raw[i] + " requires a number"@)
        } else if text::unsigned_upto(raw[i + 1], u32::MAX as nat) is None {
            Some(raw[i] + " is not a number: "@ + raw[i + 1])
        } else {
            flag_problem(raw, i + 2, flag, needs, number)
        }
    } else {
        Some("unknown argument: "@ + raw[i])
    }
}

/// The value of the one flag that a program has, or why the arguments are not accepted.
pub open spec fn single(raw: Seq<Seq<char>>, flag: Seq<char>) -> Result<Seq<char>, Seq<char>> {
    match flag_problem(raw, 0, flag, "a path"@, None) {
        Some(e) => Err(e),
        None => match last_value(raw, 0, flag, None) {
            Some(v) => Ok(v),
            None => Err(flag + " is required"@),
        },
    }
}

fn concat(a: &str, b: &str) -> (s: String)
    ensures
        s@ == a@ + b@,
{
    let mut s: String = a.to_string();
    s.append(b);
    s
}

fn parse_single(raw: &Vec<String>, flag: &str) -> (r: Result<String, String>)
    ensures
        match single(text::values(raw@), flag@) {
            Ok(v) => r matches Ok(s) && s@ == v,
            Err(e) => r matches Err(s) && s@ == e,
        },
{
    let ghost all = text::values(raw@);
    let mut value: Option<String> = None;
    let ghost mut value_view: Option<Seq<char>> = None;
    let n: usize = raw.len();
    let mut i: usize = 0;
    while i < n
        invariant
            i <= n == raw@.len(),
            all == text::values(raw@),
            value is Some <==> value_view is Some,
            value matches Some(v) ==> value_view == Some(v@),
            flag_problem(all, i as int, flag@, "a path"@, None) == flag_problem(
                all,
                0,
                flag@,
                "a path"@,
                None,
            ),
            last_value(all, i as int, flag@, value_view) == last_value(all, 0, flag@, None),
        decreases n - i,
    {
        assert(all[i as int] == raw@[i as int]@);
        if !same(raw[i].as_str(), flag) {
            return Err(concat("unknown argument: ", raw[i].as_str()));
        }
        if i + 1 >= n {
            let head: String = concat(flag, " requires ");
            return Err(concat(head.as_str(), "a path"));
        }
        assert(all[i + 1] == raw@[i + 1]@);
        value = Some(raw[i + 1].clone());
        proof {
            value_view = Some(all[i + 1]);
        }
        i = i + 2;
    }
    match value {
        Some(v) => Ok(v),
        None => Err(concat(flag, " is required")),
    }
}

/// The path of the configuration with which a controller is started, or why the arguments are
/// not accepted.
pub fn parse_controller_args(raw: &Vec<String>) -> (r: Result<String, String>)
    ensures
        match single(text::values(raw@), "--config"@) {
            Ok(v) => r matches Ok(s) && s@ == v,
            Err(e) => r matches Err(s) && s@ == e,
        },
{
    parse_single(raw, "--config")
}

/// The path that sample messages are written to, or why the arguments are not accepted.
pub fn parse_sample_args(raw: &Vec<String>) -> (r: Result<String, String>)
    ensures
        match single(text::values(raw@), "--out"@) {
            Ok(v) => r matches Ok(s) && s@ == v,
            Err(e) => r matches Err(s) && s@ == e,
        },
{
    parse_single(raw, "--out")
}

/// What a receiver is started with.
#[derive(Debug, Clone)]
pub struct ReceiverArgs {
    pub config: String,
    pub cobo_id: u32,
}

/// What a receiver is started with, or why the arguments are not accepted.
pub open spec fn receiver_of(raw: Seq<Seq<char>>) -> Result<(Seq<char>, u32), Seq<char>> {
    match flag_problem(raw, 0, "--config"@, "a path"@, Some("--cobo-id"@)) {
        Some(e) => Err(e),
        None => match last_value(raw, 0, "--config"@, None) {
            None => Err("--config is required"@),
            Some(config) => match last_value(raw, 0, "--cobo-id"@, None) {
                None => Err("--cobo-id is required"@),
                Some(id) => Ok((config, text::unsigned(id)->0 as u32)),
            },
        },
    }
}

/// What a receiver is started with, or why the arguments are not accepted.
pub fn parse_receiver_args(raw: &Vec<String>) -> (r: Result<ReceiverArgs, String>)
    ensures
        match receiver_of(text::values(raw@)) {
            Ok(v) => r matches Ok(args) && args.config@ == v.0 && args.cobo_id == v.1,
            Err(e) => r matches Err(s) && s@ == e,
        },
{
    proof {
        reveal_strlit("--config");
        reveal_strlit("--cobo-id");
        assert("--config"@.len() != "--cobo-id"@.len());
    }
    let ghost all = text::values(raw@);
    let ghost number = Some("--cobo-id"@);
    let mut config: Option<String> = None;
    let mut cobo_id: Option<u32> = None;
    let ghost mut config_view: Option<Seq<char>> = None;
    let ghost mut id_view: Option<Seq<char>> = None;
    let n: usize = raw.len();
    let mut i: usize = 0;
    while i < n
        invariant
            i <= n == raw@.len(),
            "--config"@ != "--cobo-id"@,
            number == Some("--cobo-id"@),
            all == text::values(raw@),
            config is Some <==> config_view is Some,
            config matches Some(v) ==> config_view == Some(v@),
            cobo_id is Some <==> id_view is Some,
            cobo_id matches Some(id) ==> text::unsigned(id_view->0) == Some(id as nat),
            flag_problem(all, i as int, "--config"@, "a path"@, number) == flag_problem(
                all,
                0,
                "--config"@,
                "a path"@,
                number,
            ),
            last_value(all, i as int, "--config"@, config_view) == last_value(
                all,
                0,
                "--config"@,
                None,
            ),
            last_value(all, i as int, "--cobo-id"@, id_view) == last_value(
                all,
                0,
                "--cobo-id"@,
                None,
            ),
        decreases n - i,
    {
        assert(all[i as int] == raw@[i as int]@);
        let arg = raw[i].as_str();
        if same(arg, "--config") {
            if i + 1 >= n {
                let head: String = concat(arg, " requires ");
                return Err(concat(head.as_str(), "a path"));
            }
            assert(all[i + 1] == raw@[i + 1]@);
            config = Some(raw[i + 1].clone());
            proof {
                config_view = Some(all[i + 1]);
            }
        } else if same(arg, "--cobo-id") {
            if i + 1 >= n {
                return Err(concat(arg, " requires a number"));
            }
            assert(all[i + 1] == raw@[i + 1]@);
            let digits: Vec<char> = chars_of(raw[i + 1].as_str());
            match parse_unsigned(digits.as_slice(), 0xFFFF_FFFF) {
                None => {
                    let head: String = concat(arg, " is not a number: ");
                    return Err(concat(head.as_str(), raw[i + 1].as_str()));
                },
                Some(id) => {
                    cobo_id = Some(id as u32);
                    proof {
                        id_view = Some(all[i + 1]);
                    }
                },
            }
        } else {
            return Err(concat("unknown argument: ", arg));
        }
        i = i + 2;
    }
    match config {
        None => Err("--config is required".to_string()),
        Some(config) => match cobo_id {
            None => Err("--cobo-id is required".to_string()),
            Some(cobo_id) => Ok(ReceiverArgs { config, cobo_id }),
        },
    }
}

/// The order of the flags makes no difference to a receiver.
pub proof fn law_flags_come_in_any_order(config: Seq<char>, id: Seq<char>)
    ensures
        receiver_of(seq!["--config"@, config, "--cobo-id"@, id]) == receiver_of(
            seq!["--cobo-id"@, id, "--config"@, config],
        ),
{
    reveal_strlit("--config");
    reveal_strlit("--cobo-id");
    assert("--config"@.len() != "--cobo-id"@.len());
    reveal_with_fuel(flag_problem, 3);
    reveal_with_fuel(last_value, 3);
}

} // verus!
