//! The process command line, parsed into flagged arguments.
//!
//! The process entry point hands over the executable name and the raw
//! argument tokens; everything here is pure token logic. A token opening
//! with `+` or `-` is a key; a key takes the next token as its value
//! when that token is not itself a key.

use vstd::prelude::*;
use vstd::string::StrSliceExecFns;
use crate::strutil::str_eq;

verus! {

/// One parsed argument: a key and its optional value.
pub struct Argument {
    key: String,
    value: Option<String>,
}

/// The mathematical model of one argument.
pub ghost struct ArgumentView {
    pub key: Seq<char>,
    pub value: Option<Seq<char>>,
}

impl View for Argument {
    type V = ArgumentView;

    closed spec fn view(&self) -> ArgumentView {
        ArgumentView {
            key: self.key@,
            value: match self.value {
                Some(v) => Some(v@),
                None => None,
            },
        }
    }
}

impl Argument {
    pub fn get_key(&self) -> (r: &String)
        ensures
            r@ == self@.key,
    {
        &self.key
    }

    pub fn has_value(&self) -> (r: bool)
        ensures
            r == (self@.value is Some),
    {
        self.value.is_some()
    }

    /// The argument's value; only arguments that have one may be asked.
    pub fn get_value(&self) -> (r: &String)
        requires
            self@.value is Some,
        ensures
            self@.value == Some(r@),
    {
        match &self.value {
            Some(v) => v,
            None => unreached(),
        }
    }
}

/// Whether a raw token is a key: it opens with `+` or `-`.
pub open spec fn spec_is_key(s: Seq<char>) -> bool {
    s.len() > 0 && (s[0] == '+' || s[0] == '-')
}

fn is_key(s: &str) -> (r: bool)
    ensures
        r == spec_is_key(s@),
{
    if s.unicode_len() == 0 {
        return false;
    }
    let c = s.get_char(0);
    c == '+' || c == '-'
}

/// The views of a list of owned strings.
pub open spec fn strs_view(v: Seq<String>) -> Seq<Seq<char>> {
    Seq::new(v.len(), |i: int| v[i]@)
}

/// The views of a list of arguments.
pub open spec fn args_view(v: Seq<Argument>) -> Seq<ArgumentView> {
    Seq::new(v.len(), |i: int| v[i]@)
}

/// The arguments a raw token list denotes: each token in key position
/// takes the following token as its value when that token is not a key.
pub open spec fn spec_parse_args(argv: Seq<Seq<char>>) -> Seq<ArgumentView>
    decreases argv.len(),
{
    if argv.len() == 0 {
        Seq::empty()
    } else if argv.len() >= 2 && !spec_is_key(argv[1]) {
        seq![ArgumentView { key: argv[0], value: Some(argv[1]) }] + spec_parse_args(argv.skip(2))
    } else {
        seq![ArgumentView { key: argv[0], value: None }] + spec_parse_args(argv.skip(1))
    }
}

/// The first position of `flag` among the tokens; the token count when absent.
pub open spec fn spec_flag_pos(argv: Seq<Seq<char>>, flag: Seq<char>) -> int
    decreases argv.len(),
{
    if argv.len() == 0 {
        0
    } else if argv[0] == flag {
        0
    } else {
        1 + spec_flag_pos(argv.drop_first(), flag)
    }
}

/// The value tokens that follow each occurrence of `flag`.
pub open spec fn spec_option_values(argv: Seq<Seq<char>>, flag: Seq<char>) -> Seq<Seq<char>>
    decreases argv.len(),
{
    if argv.len() == 0 {
        Seq::empty()
    } else if argv[0] == flag && argv.len() >= 2 {
        seq![argv[1]] + spec_option_values(argv.drop_first(), flag)
    } else {
        spec_option_values(argv.drop_first(), flag)
    }
}

/// The process command line: the executable name, the raw argument
/// tokens, and the arguments parsed out of them.
pub struct CommandLine {
    exec_name: String,
    argv: Vec<String>,
    arguments: Vec<Argument>,
}

/// The mathematical model of a command line.
pub ghost struct CommandLineView {
    pub exec_name: Seq<char>,
    pub argv: Seq<Seq<char>>,
    pub arguments: Seq<ArgumentView>,
}

impl View for CommandLine {
    type V = CommandLineView;

    closed spec fn view(&self) -> CommandLineView {
        CommandLineView {
            exec_name: self.exec_name@,
            argv: strs_view(self.argv@),
            arguments: args_view(self.arguments@),
        }
    }
}

impl CommandLine {
    /// Builds the command line from the executable name and the raw
    /// tokens the process was started with, parsing the arguments as
    /// `spec_parse_args` describes.
    pub fn from_args(exec_name: String, argv: Vec<String>) -> (r: CommandLine)
        ensures
            r@.exec_name == exec_name@,
            r@.argv == strs_view(argv@),
            r@.arguments == spec_parse_args(strs_view(argv@)),
    {
        let ghost toks = strs_view(argv@);
        let mut arguments: Vec<Argument> = Vec::new();
        let n = argv.len();
        let mut i: usize = 0;
        proof {
            assert(toks.skip(0) =~= toks);
            assert(args_view(arguments@) + spec_parse_args(toks) =~= spec_parse_args(toks));
        }
        while i < n
            invariant
                n == argv@.len(),
                i <= n,
                toks == strs_view(argv@),
                spec_parse_args(toks) == args_view(arguments@) + spec_parse_args(
                    toks.skip(i as int),
                ),
            decreases n - i,
        {
            let ghost args_old = arguments@;
            let ghost rest = toks.skip(i as int);
            proof {
                assert(rest[0] == toks[i as int]);
            }
            if i + 1 < n && !is_key(argv[i + 1].as_str()) {
                proof {
                    assert(rest[1] == toks[i + 1]);
                }
                arguments.push(
                    Argument { key: argv[i].clone(), value: Some(argv[i + 1].clone()) },
                );
                i = i + 2;
            } else {
                proof {
                    if i + 1 < n {
                        assert(rest[1] == toks[i + 1]);
                    }
                }
                arguments.push(Argument { key: argv[i].clone(), value: None });
                i = i + 1;
            }
            proof {
                assert(rest.skip(if rest.len() >= 2 && !spec_is_key(rest[1]) {
                    2int
                } else {
                    1int
                }) =~= toks.skip(i as int));
                assert(args_view(arguments@) =~= args_view(args_old).push(
                    arguments@[arguments@.len() - 1]@,
                ));
                assert(args_view(args_old) + (seq![arguments@[arguments@.len() - 1]@]
                    + spec_parse_args(toks.skip(i as int))) =~= args_view(arguments@)
                    + spec_parse_args(toks.skip(i as int)));
            }
        }
        proof {
            assert(toks.skip(n as int) =~= Seq::<Seq<char>>::empty());
            assert(args_view(arguments@) + Seq::<ArgumentView>::empty() =~= args_view(
                arguments@,
            ));
        }
        CommandLine { exec_name, argv, arguments }
    }

    /// The executable name the process was started under.
    pub fn executable(&self) -> (r: &String)
        ensures
            r@ == self@.exec_name,
    {
        &self.exec_name
    }

    /// The parsed arguments.
    pub fn get_params(&self) -> (r: &Vec<Argument>)
        ensures
            args_view(r@) == self@.arguments,
    {
        &self.arguments
    }

    /// All raw argument tokens, in order.
    pub fn all(&self) -> (r: &Vec<String>)
        ensures
            strs_view(r@) == self@.argv,
    {
        &self.argv
    }

    /// Whether `flag` occurs among the raw tokens.
    pub fn flag(&self, flag: &str) -> (r: bool)
        ensures
            r == exists|i: int| 0 <= i < self@.argv.len() && #[trigger] self@.argv[i] == flag@,
    {
        let n = self.argv.len();
        let mut i: usize = 0;
        while i < n
            invariant
                n == self.argv@.len(),
                i <= n,
                forall|j: int| 0 <= j < i ==> #[trigger] strs_view(self.argv@)[j] != flag@,
            decreases n - i,
        {
            if str_eq(self.argv[i].as_str(), flag) {
                proof {
                    assert(self@.argv[i as int] == flag@);
                }
                return true;
            }
            i = i + 1;
        }
        false
    }

    /// The token after the first occurrence of `flag`; `None` when the
    /// flag is absent or stands last.
    pub fn option(&self, flag: &str) -> (r: Option<&String>)
        ensures
            match r {
                Some(s) => {
                    let p = spec_flag_pos(self@.argv, flag@);
                    p + 1 < self@.argv.len() && self@.argv[p] == flag@ && s@ == self@.argv[p + 1]
                },
                None => spec_flag_pos(self@.argv, flag@) + 1 >= self@.argv.len(),
            },
    {
        let n = self.argv.len();
        let mut i: usize = 0;
        proof {
            assert(self@.argv.skip(0) =~= self@.argv);
        }
        while i < n
            invariant
                n == self.argv@.len(),
                i <= n,
                spec_flag_pos(self@.argv, flag@) == i + spec_flag_pos(
                    self@.argv.skip(i as int),
                    flag@,
                ),
                forall|j: int| 0 <= j < i ==> #[trigger] self@.argv[j] != flag@,
            decreases n - i,
        {
            let ghost rest = self@.argv.skip(i as int);
            proof {
                assert(rest[0] == self@.argv[i as int]);
                assert(rest.drop_first() =~= self@.argv.skip(i + 1));
            }
            if str_eq(self.argv[i].as_str(), flag) {
                proof {
                    assert(spec_flag_pos(self@.argv, flag@) == i);
                }
                if i + 1 < n {
                    return Some(&self.argv[i + 1]);
                }
                return None;
            }
            i = i + 1;
        }
        proof {
            assert(self@.argv.skip(n as int) =~= Seq::<Seq<char>>::empty());
        }
        None
    }

    /// Every token that follows an occurrence of `flag`, in order.
    pub fn option_many(&self, flag: &str) -> (r: Vec<String>)
        ensures
            strs_view(r@) == spec_option_values(self@.argv, flag@),
    {
        let n = self.argv.len();
        let mut out: Vec<String> = Vec::new();
        let mut i: usize = 0;
        proof {
            assert(self@.argv.skip(0) =~= self@.argv);
            assert(strs_view(out@) + spec_option_values(self@.argv, flag@) =~= spec_option_values(
                self@.argv,
                flag@,
            ));
        }
        while i < n
            invariant
                n == self.argv@.len(),
                i <= n,
                spec_option_values(self@.argv, flag@) == strs_view(out@) + spec_option_values(
                    self@.argv.skip(i as int),
                    flag@,
                ),
            decreases n - i,
        {
            let ghost out_old = out@;
            let ghost rest = self@.argv.skip(i as int);
            proof {
                assert(rest[0] == self@.argv[i as int]);
                if i + 1 < n {
                    assert(rest[1] == self@.argv[i + 1]);
                }
                assert(rest.drop_first() =~= self@.argv.skip(i + 1));
            }
            if str_eq(self.argv[i].as_str(), flag) && i + 1 < n {
                out.push(self.argv[i + 1].clone());
                proof {
                    assert(strs_view(out@) =~= strs_view(out_old).push(self@.argv[i + 1]));
                    assert(strs_view(out_old) + (seq![self@.argv[i + 1]] + spec_option_values(
                        self@.argv.skip(i + 1),
                        flag@,
                    )) =~= strs_view(out@) + spec_option_values(self@.argv.skip(i + 1), flag@));
                }
            }
            i = i + 1;
        }
        proof {
            assert(self@.argv.skip(n as int) =~= Seq::<Seq<char>>::empty());
            assert(strs_view(out@) + Seq::<Seq<char>>::empty() =~= strs_view(out@));
        }
        out
    }
}

} // verus!
