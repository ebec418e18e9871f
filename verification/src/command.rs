//! Command lines: what a caller needs to start one external tool. The crate
//! builds them; starting the process is the caller's part.

use vstd::prelude::*;
use crate::text::{views, to_chars, append, string_of, joined};

verus! {

/// One invocation of an external program.
#[derive(Debug, Clone)]
pub struct CommandLine {
    /// The program to start.
    pub program: String,
    /// Its arguments, in order.
    pub args: Vec<String>,
    /// The directory to start it in, where that is not the caller's own.
    pub current_dir: Option<String>,
    /// Environment variables to set for it, in the order they were given.
    pub envs: Vec<(String, String)>,
}

/// The mathematical value of a [`CommandLine`].
pub struct CommandLineView {
    pub program: Seq<char>,
    pub args: Seq<Seq<char>>,
    pub current_dir: Option<Seq<char>>,
    pub envs: Seq<(Seq<char>, Seq<char>)>,
}

/// The views of a sequence of pairs of strings.
pub open spec fn pair_views(v: Seq<(String, String)>) -> Seq<(Seq<char>, Seq<char>)> {
    Seq::new(v.len(), |i: int| (v[i].0@, v[i].1@))
}

/// The view of an optional string.
pub open spec fn option_view(s: Option<String>) -> Option<Seq<char>> {
    match s {
        Some(s) => Some(s@),
        None => None,
    }
}

impl View for CommandLine {
    type V = CommandLineView;

    open spec fn view(&self) -> CommandLineView {
        CommandLineView {
            program: self.program@,
            args: views(self.args@),
            current_dir: option_view(self.current_dir),
            envs: pair_views(self.envs@),
        }
    }
}

/// The text of a command line: the program, then each argument after one
/// space.
pub open spec fn rendered(c: CommandLineView) -> Seq<char> {
    joined(seq![c.program] + c.args, seq![' '])
}

impl CommandLine {
    /// A command line for `program` with no arguments.
    pub fn new(program: &str) -> (c: CommandLine)
        ensures
            c@ == (CommandLineView {
                program: program@,
                args: Seq::empty(),
                current_dir: None,
                envs: Seq::empty(),
            }),
    {
        let c = CommandLine {
            program: program.to_owned(),
            args: Vec::new(),
            current_dir: None,
            envs: Vec::new(),
        };
        assert(c@.args =~= Seq::empty());
        assert(c@.envs =~= Seq::empty());
        c
    }

    /// Adds one argument at the end.
    pub fn arg(&mut self, arg: &str)
        ensures
            final(self)@ == (CommandLineView { args: old(self)@.args.push(arg@), ..old(self)@ }),
    {
        self.args.push(arg.to_owned());
        assert(self@.args =~= old(self)@.args.push(arg@));
    }

    /// Adds each of `args` at the end, in order.
    pub fn args(&mut self, args: &Vec<String>)
        ensures
            final(self)@ == (CommandLineView {
                args: old(self)@.args + views(args@),
                ..old(self)@
            }),
    {
        let mut k: usize = 0;
        while k < args.len()
            invariant
                k <= args.len(),
                self@ == (CommandLineView {
                    args: old(self)@.args + views(args@).take(k as int),
                    ..old(self)@
                }),
            decreases args.len() - k,
        {
            let ghost before = self@.args;
            let word = args[k].clone();
            self.args.push(word);
            assert(self@.args =~= before.push(args@[k as int]@));
            assert(views(args@).take(k + 1) =~= views(args@).take(k as int).push(args@[k as int]@));
            k += 1;
        }
        assert(views(args@).take(args@.len() as int) =~= views(args@));
    }

    /// Sets the directory to start the program in.
    pub fn current_dir(&mut self, dir: &str)
        ensures
            final(self)@ == (CommandLineView { current_dir: Some(dir@), ..old(self)@ }),
    {
        self.current_dir = Some(dir.to_owned());
    }

    /// Adds one environment variable at the end.
    pub fn env(&mut self, key: &str, value: &str)
        ensures
            final(self)@ == (CommandLineView {
                envs: old(self)@.envs.push((key@, value@)),
                ..old(self)@
            }),
    {
        self.envs.push((key.to_owned(), value.to_owned()));
        assert(self@.envs =~= old(self)@.envs.push((key@, value@)));
    }

    /// The command line as one line of text, from which the invocation can
    /// be made again by hand.
    pub fn render(&self) -> (s: String)
        ensures
            s@ == rendered(self@),
    {
        let mut out = to_chars(self.program.as_str());
        let ghost words = seq![self@.program] + self@.args;
        let mut k: usize = 0;
        while k < self.args.len()
            invariant
                k <= self.args.len(),
                words == seq![self@.program] + self@.args,
                out@ == joined(words.take(k + 1), seq![' ']),
            decreases self.args.len() - k,
        {
            let ghost next = words.take(k + 2);
            assert(next.drop_last() =~= words.take(k + 1));
            assert(next.last() == self.args@[k as int]@);
            out.push(' ');
            let word = to_chars(self.args[k].as_str());
            append(&mut out, &word);
            assert(out@ =~= joined(next, seq![' ']));
            k += 1;
        }
        assert(words.take(self.args@.len() as int + 1) =~= words);
        string_of(&out)
    }
}

} // verus!
