//! The configuration a command line asks for: which counts to produce, and
//! for which file.

use vstd::prelude::*;

verus! {

/// The token that switches byte counting on.
pub open spec fn flag_bytes() -> Seq<char> {
    seq!['-', 'c']
}

/// The token that switches line counting on.
pub open spec fn flag_lines() -> Seq<char> {
    seq!['-', 'l']
}

/// The token that switches word counting on.
pub open spec fn flag_words() -> Seq<char> {
    seq!['-', 'w']
}

/// A recognized flag token.
pub open spec fn is_flag(t: Seq<char>) -> bool {
    t == flag_bytes() || t == flag_lines() || t == flag_words()
}

/// Whether some token of `ts` equals `f`.
pub open spec fn has_token(ts: Seq<Seq<char>>, f: Seq<char>) -> bool {
    exists|j: int| 0 <= j < ts.len() && ts[j] == f
}

/// The last token of `ts` that is not a recognized flag, if any: a later
/// positional token silently overwrites an earlier one.
pub open spec fn last_positional(ts: Seq<Seq<char>>) -> Option<Seq<char>>
    decreases ts.len(),
{
    if ts.len() == 0 {
        None
    } else if !is_flag(ts.last()) {
        Some(ts.last())
    } else {
        last_positional(ts.drop_last())
    }
}

/// The file path the tokens leave behind: the last positional token, or the
/// empty string when there is none.
pub open spec fn path_state(ts: Seq<Seq<char>>) -> Seq<char> {
    match last_positional(ts) {
        None => Seq::<char>::empty(),
        Some(p) => p,
    }
}

/// The command-line tokens that follow the program name.
pub open spec fn tokens_of(args: Seq<String>) -> Seq<Seq<char>> {
    if args.len() == 0 {
        Seq::<Seq<char>>::empty()
    } else {
        args.subrange(1, args.len() as int).map_values(|a: String| a@)
    }
}

/// Why no configuration could be built.
#[derive(Clone, Copy, Debug, PartialEq, Eq, Structural)]
pub enum ConfigError {
    /// No token was left over as the file path.
    MissingFilePath,
}

impl ConfigError {
    /// The diagnostic text for this error.
    pub fn message(&self) -> (r: &'static str)
        ensures
            r@ == "File path required"@,
    {
        "File path required"
    }
}

/// What one invocation was asked to do.
#[derive(Debug)]
pub struct Config {
    /// The file whose contents are to be counted.
    pub file_path: String,
    /// Report the byte count.
    pub bytes_arg: bool,
    /// Report the line count.
    pub lines_arg: bool,
    /// Report the word count.
    pub words_arg: bool,
}

/// Appending a token extends a token search by exactly that token.
proof fn lemma_has_token_push(ts: Seq<Seq<char>>, t: Seq<char>, f: Seq<char>)
    ensures
        has_token(ts.push(t), f) == (has_token(ts, f) || t == f),
{
    if t == f {
        assert(ts.push(t)[ts.len() as int] == f);
    }
    if has_token(ts, f) {
        let j = choose|j: int| 0 <= j < ts.len() && ts[j] == f;
        assert(ts.push(t)[j] == f);
    }
    if has_token(ts.push(t), f) && !(has_token(ts, f) || t == f) {
        let j = choose|j: int| 0 <= j < ts.push(t).len() && ts.push(t)[j] == f;
        if j < ts.len() {
            assert(ts[j] == f);
        } else {
            assert(t == f);
        }
        assert(false);
    }
}

/// Appending a token either overwrites the positional token or leaves it.
proof fn lemma_last_positional_push(ts: Seq<Seq<char>>, t: Seq<char>)
    ensures
        last_positional(ts.push(t)) == (if !is_flag(t) {
            Some(t)
        } else {
            last_positional(ts)
        }),
{
    assert(ts.push(t).last() == t);
    assert(ts.push(t).drop_last() =~= ts);
}

impl Config {
    /// Builds the configuration from the command-line arguments, the program
    /// name first. A token equal to a recognized flag switches that count
    /// on; any other token becomes the file path, the last one winning.
    /// Fails exactly when the tokens leave no non-empty file path behind.
    pub fn build(args: &Vec<String>) -> (r: Result<Config, ConfigError>)
        ensures
            ({
                let ts = tokens_of(args@);
                match r {
                    Ok(c) => {
                        &&& last_positional(ts) matches Some(p) && p == c.file_path@ && p.len() > 0
                        &&& c.bytes_arg == has_token(ts, flag_bytes())
                        &&& c.lines_arg == has_token(ts, flag_lines())
                        &&& c.words_arg == has_token(ts, flag_words())
                    },
                    Err(e) => {
                        &&& e == ConfigError::MissingFilePath
                        &&& path_state(ts).len() == 0
                    },
                }
            }),
    {
        let ghost ts = tokens_of(args@);
        let fc: String = "-c".to_owned();
        let fl: String = "-l".to_owned();
        let fw: String = "-w".to_owned();
        proof {
            reveal_strlit("-c");
            reveal_strlit("-l");
            reveal_strlit("-w");
            assert(fc@ =~= flag_bytes());
            assert(fl@ =~= flag_lines());
            assert(fw@ =~= flag_words());
        }
        let mut file_path = String::new();
        let mut bytes_arg = false;
        let mut lines_arg = false;
        let mut words_arg = false;
        let mut i: usize = 1;
        while i < args.len()
            invariant
                ts == tokens_of(args@),
                1 <= i,
                i - 1 <= ts.len(),
                args@.len() > 0 ==> ts.len() == args@.len() - 1,
                args@.len() == 0 ==> i == 1,
                fc@ == flag_bytes(),
                fl@ == flag_lines(),
                fw@ == flag_words(),
                bytes_arg == has_token(ts.take(i - 1), flag_bytes()),
                lines_arg == has_token(ts.take(i - 1), flag_lines()),
                words_arg == has_token(ts.take(i - 1), flag_words()),
                file_path@ == path_state(ts.take(i - 1)),
            decreases args.len() - i,
        {
            let a = &args[i];
            proof {
                assert(ts[i - 1] == a@);
                assert(ts.take(i as int) =~= ts.take(i - 1).push(ts[i - 1]));
                lemma_has_token_push(ts.take(i - 1), a@, flag_bytes());
                lemma_has_token_push(ts.take(i - 1), a@, flag_lines());
                lemma_has_token_push(ts.take(i - 1), a@, flag_words());
                lemma_last_positional_push(ts.take(i - 1), a@);
            }
            if *a == fc {
                bytes_arg = true;
            } else if *a == fl {
                lines_arg = true;
            } else if *a == fw {
                words_arg = true;
            } else {
                file_path = a.clone();
            }
            i = i + 1;
        }
        proof {
            assert(ts.take(i - 1) =~= ts);
        }
        if file_path.as_str().is_empty() {
            proof {
                assert(path_state(ts) =~= Seq::<char>::empty());
            }
            Err(ConfigError::MissingFilePath)
        } else {
            Ok(Config { file_path, bytes_arg, lines_arg, words_arg })
        }
    }
}

/// A token sequence whose members are all recognized flags leaves no file
/// path behind.
pub proof fn lemma_no_positional(ts: Seq<Seq<char>>)
    requires
        forall|j: int| 0 <= j < ts.len() ==> is_flag(ts[j]),
    ensures
        last_positional(ts) is None,
    decreases ts.len(),
{
    if ts.len() > 0 {
        assert(is_flag(ts.last()));
        assert forall|j: int| 0 <= j < ts.drop_last().len() implies is_flag(
            ts.drop_last()[j],
        ) by {
            assert(ts.drop_last()[j] == ts[j]);
        }
        lemma_no_positional(ts.drop_last());
    }
}

/// When exactly one token is not a recognized flag, it is the file path,
/// whatever flags surround it and in whatever order.
pub proof fn lemma_single_positional(ts: Seq<Seq<char>>, k: int)
    requires
        0 <= k < ts.len(),
        !is_flag(ts[k]),
        forall|j: int| 0 <= j < ts.len() && j != k ==> is_flag(ts[j]),
    ensures
        last_positional(ts) == Some(ts[k]),
    decreases ts.len(),
{
    if k == ts.len() - 1 {
        assert(!is_flag(ts.last()));
    } else {
        assert(is_flag(ts.last()));
        assert(ts.drop_last()[k] == ts[k]);
        assert forall|j: int| 0 <= j < ts.drop_last().len() && j != k implies is_flag(
            ts.drop_last()[j],
        ) by {
            assert(ts.drop_last()[j] == ts[j]);
        }
        lemma_single_positional(ts.drop_last(), k);
    }
}

} // verus!
