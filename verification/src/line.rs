//! The server-to-server wire line: `[:<prefix>] <COMMAND> <args...>
//! [:<trailing>]`, as a structured value, and its rendering.

use vstd::prelude::*;
use crate::models::view_opt_string;

verus! {

/// One protocol line, already tokenized.
pub struct IrcLine {
    pub prefix: Option<String>,
    pub command: String,
    pub args: Vec<String>,
    pub suffix: Option<String>,
}

#[verifier::ext_equal]
pub struct LineView {
    pub prefix: Option<Seq<char>>,
    pub command: Seq<char>,
    pub args: Seq<Seq<char>>,
    pub suffix: Option<Seq<char>>,
}

impl View for IrcLine {
    type V = LineView;

    open spec fn view(&self) -> LineView {
        LineView {
            prefix: view_opt_string(self.prefix),
            command: self.command@,
            args: self.args@.map_values(|a: String| a@),
            suffix: view_opt_string(self.suffix),
        }
    }
}

/// The line a prefix, command, arguments and trailing text make.
pub open spec fn spec_line(
    prefix: Option<Seq<char>>,
    command: Seq<char>,
    args: Seq<Seq<char>>,
    suffix: Option<Seq<char>>,
) -> LineView {
    LineView { prefix, command, args, suffix }
}

impl IrcLine {
    /// Builds a line from its parts.
    pub fn new(prefix: Option<String>, command: &str, args: Vec<String>, suffix: Option<String>) -> (r: IrcLine)
        ensures
            r@ == spec_line(
                view_opt_string(prefix),
                command@,
                args@.map_values(|a: String| a@),
                view_opt_string(suffix),
            ),
    {
        IrcLine { prefix, command: command.to_owned(), args, suffix }
    }

    pub fn duplicate(&self) -> (r: IrcLine)
        ensures
            r@ == self@,
    {
        let mut args: Vec<String> = Vec::new();
        let cnt = self.args.len();
        let mut i: usize = 0;
        while i < cnt
            invariant
                cnt == self.args@.len(),
                i <= cnt,
                args@.len() == i,
                forall|j: int| 0 <= j < i ==> (#[trigger] args@[j])@ == self.args@[j]@,
            decreases cnt - i,
        {
            args.push(self.args[i].clone());
            i = i + 1;
        }
        let r = IrcLine {
            prefix: crate::models::clone_opt_string(&self.prefix),
            command: self.command.clone(),
            args,
            suffix: crate::models::clone_opt_string(&self.suffix),
        };
        proof {
            assert(r@.args =~= self@.args);
            assert(r@ =~= self@);
        }
        r
    }
}

/// The space-separated argument part of a rendered line.
pub open spec fn spec_render_args(args: Seq<Seq<char>>) -> Seq<char>
    decreases args.len(),
{
    if args.len() == 0 {
        Seq::<char>::empty()
    } else {
        seq![' '] + args[0] + spec_render_args(args.drop_first())
    }
}

/// The rendered wire form of a line, without the trailing line break.
pub open spec fn spec_render_line(l: LineView) -> Seq<char> {
    let head = match l.prefix {
        Some(p) => seq![':'] + p + seq![' '],
        None => Seq::<char>::empty(),
    };
    let tail = match l.suffix {
        Some(s) => seq![' ', ':'] + s,
        None => Seq::<char>::empty(),
    };
    head + l.command + spec_render_args(l.args) + tail
}

fn render_args_from(args: &Vec<String>, i: usize) -> (r: String)
    requires
        i <= args@.len(),
    ensures
        r@ == spec_render_args(args@.map_values(|a: String| a@).skip(i as int)),
    decreases args@.len() - i,
{
    let ghost av = args@.map_values(|a: String| a@);
    if i == args.len() {
        proof {
            assert(av.skip(i as int) =~= Seq::<Seq<char>>::empty());
        }
        String::new()
    } else {
        let mut out = String::new();
        out.push(' ');
        out.append(args[i].as_str());
        let rest = render_args_from(args, i + 1);
        proof {
            assert(av.skip(i as int)[0] == av[i as int]);
            assert(av.skip(i as int).drop_first() =~= av.skip(i + 1));
        }
        out.concat(rest.as_str())
    }
}

/// Renders a line for the wire.
pub fn render_line(l: &IrcLine) -> (r: String)
    ensures
        r@ == spec_render_line(l@),
{
    let mut out = String::new();
    match &l.prefix {
        Some(p) => {
            out.push(':');
            out.append(p.as_str());
            out.push(' ');
        },
        None => {},
    }
    out.append(l.command.as_str());
    let args = render_args_from(&l.args, 0);
    proof {
        assert(l@.args.skip(0) =~= l@.args);
    }
    out.append(args.as_str());
    match &l.suffix {
        Some(s) => {
            out.push(' ');
            out.push(':');
            out.append(s.as_str());
        },
        None => {},
    }
    proof {
        assert(out@ =~= spec_render_line(l@));
    }
    out
}

} // verus!
