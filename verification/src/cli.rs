//! The command line.

use vstd::prelude::*;

verus! {

/// What the program is asked to do.
#[derive(Debug, Clone)]
pub enum Command {
    Train { sovereign_path: String, tokenizer_path: String },
    Infer { sovereign_path: String, tokenizer_path: String, prompt: String },
    Init { sovereign_path: String, tokenizer_path: String },
    Demo,
}

/// What the program is asked to do.
pub enum CommandModel {
    Train { sovereign_path: Seq<char>, tokenizer_path: Seq<char> },
    Infer { sovereign_path: Seq<char>, tokenizer_path: Seq<char>, prompt: Seq<char> },
    Init { sovereign_path: Seq<char>, tokenizer_path: Seq<char> },
    Demo,
}

impl View for Command {
    type V = CommandModel;

    open spec fn view(&self) -> CommandModel {
        match self {
            Command::Train { sovereign_path, tokenizer_path } => CommandModel::Train {
                sovereign_path: sovereign_path@,
                tokenizer_path: tokenizer_path@,
            },
            Command::Infer { sovereign_path, tokenizer_path, prompt } => CommandModel::Infer {
                sovereign_path: sovereign_path@,
                tokenizer_path: tokenizer_path@,
                prompt: prompt@,
            },
            Command::Init { sovereign_path, tokenizer_path } => CommandModel::Init {
                sovereign_path: sovereign_path@,
                tokenizer_path: tokenizer_path@,
            },
            Command::Demo => CommandModel::Demo,
        }
    }
}

/// Argument `i`, or `default` where there are not that many.
pub open spec fn argument(args: Seq<String>, i: int, default: Seq<char>) -> Seq<char> {
    if i < args.len() {
        args[i]@
    } else {
        default
    }
}

/// What the arguments, of which the first is the program's name, ask for.
pub open spec fn command_of(args: Seq<String>) -> CommandModel {
    let mode = argument(args, 1, "demo"@);
    let sovereign_path = argument(args, 2, "arca.sovereign"@);
    let tokenizer_path = argument(args, 3, "arca.tokenizer.json"@);
    if mode == "train"@ {
        CommandModel::Train { sovereign_path, tokenizer_path }
    } else if mode == "infer"@ {
        CommandModel::Infer {
            sovereign_path,
            tokenizer_path,
            prompt: argument(args, 4, "Hello ARCA"@),
        }
    } else if mode == "init"@ {
        CommandModel::Init { sovereign_path, tokenizer_path }
    } else {
        CommandModel::Demo
    }
}

fn argument_or(args: &[String], i: usize, default: &str) -> (value: String)
    ensures
        value@ == argument(args@, i as int, default@),
{
    if i < args.len() {
        args[i].clone()
    } else {
        default.to_owned()
    }
}

/// What the arguments, of which the first is the program's name, ask for.
pub fn parse(args: &[String]) -> (command: Command)
    ensures
        command@ == command_of(args@),
        ({
            let sovereign = if args@.len() > 2 {
                args@[2]@
            } else {
                "arca.sovereign"@
            };
            let tokenizer = if args@.len() > 3 {
                args@[3]@
            } else {
                "arca.tokenizer.json"@
            };
            match command {
                Command::Train { sovereign_path, tokenizer_path } => {
                    &&& args@.len() > 1 && args@[1]@ == "train"@
                    &&& sovereign_path@ == sovereign
                    &&& tokenizer_path@ == tokenizer
                },
                Command::Infer { sovereign_path, tokenizer_path, prompt } => {
                    &&& args@.len() > 1 && args@[1]@ == "infer"@
                    &&& sovereign_path@ == sovereign
                    &&& tokenizer_path@ == tokenizer
                    &&& prompt@ == if args@.len() > 4 {
                        args@[4]@
                    } else {
                        "Hello ARCA"@
                    }
                },
                Command::Init { sovereign_path, tokenizer_path } => {
                    &&& args@.len() > 1 && args@[1]@ == "init"@
                    &&& sovereign_path@ == sovereign
                    &&& tokenizer_path@ == tokenizer
                },
                Command::Demo => args@.len() > 1 ==> args@[1]@ != "train"@ && args@[1]@ != "infer"@
                    && args@[1]@ != "init"@,
            }
        }),
{
    proof {
        reveal_strlit("demo");
        reveal_strlit("train");
        reveal_strlit("infer");
        reveal_strlit("init");
        assert("demo"@[0] != "train"@[0]);
        assert("demo"@[0] != "infer"@[0]);
        assert("demo"@[0] != "init"@[0]);
    }
    let mode = argument_or(args, 1, "demo");
    let sovereign_path = argument_or(args, 2, "arca.sovereign");
    let tokenizer_path = argument_or(args, 3, "arca.tokenizer.json");
    if mode == "train".to_owned() {
        Command::Train { sovereign_path, tokenizer_path }
    } else if mode == "infer".to_owned() {
        let prompt = argument_or(args, 4, "Hello ARCA");
        Command::Infer { sovereign_path, tokenizer_path, prompt }
    } else if mode == "init".to_owned() {
        Command::Init { sovereign_path, tokenizer_path }
    } else {
        Command::Demo
    }
}

} // verus!
