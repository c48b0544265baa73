use vstd::prelude::*;
use crate::color::{Axis, Operation};
use crate::filter::Filter;
use crate::geometry::MAX_SIDE;
use crate::text::{
    chars_of, check_decimal, digits_value, is_decimal, is_digits, parse_number, split,
    split_fields, string_of,
};

verus! {

/// One instruction of a program.
#[derive(Clone, Debug)]
pub enum Command {
    /// Render the grid once through this filter.
    Filter(Filter),
    /// Open a block that runs this many times.
    For(usize),
    /// Replace the grid with an image read from a path (a default one if none).
    Load(Option<String>),
    /// Close the open block.
    Loop,
    /// Set the operation.
    Operation(Operation),
    /// Write the grid as text.
    Print,
    /// Read commands one line at a time.
    Repl,
    /// Replace the grid with a background one of this size.
    Resize { cols: usize, rows: usize },
    /// Set the transform to a rotation by this decimal number of turns.
    Rotate(String),
    /// Set the operation to a rotation of colour space about the axis, by this
    /// decimal number of turns.
    RotateColor(Axis, String),
    /// Write the grid as an image to a path (a default one if none).
    Save(Option<String>),
    /// Toggle diagnostic output.
    Verbose,
}

/// A line that names no command.
#[derive(Clone, Debug)]
pub struct ParseError {
    /// The line, as given.
    pub text: String,
}

impl Command {
    pub open spec fn is_control(&self) -> bool {
        self is For || self is Loop
    }
}

/// Whether `f` is a count: digits of value at most `usize::MAX`.
pub open spec fn is_count(f: Seq<char>) -> bool {
    is_digits(f) && digits_value(f) <= usize::MAX
}

/// Whether `f` is a grid side: digits of value at most `MAX_SIDE`.
pub open spec fn is_side(f: Seq<char>) -> bool {
    is_digits(f) && digits_value(f) <= MAX_SIDE
}

/// The colour axis that `x`, `y` or `z` names: red, green or blue.
pub open spec fn spec_axis(f: Seq<char>) -> Option<Axis> {
    if f == "x"@ {
        Some(Axis::Red)
    } else if f == "y"@ {
        Some(Axis::Green)
    } else if f == "z"@ {
        Some(Axis::Blue)
    } else {
        None
    }
}

/// Whether the colon-separated fields `f` spell a command.
pub open spec fn is_command(f: Seq<Seq<char>>) -> bool {
    let k = f[0];
    ||| f.len() == 1 && (k == "all"@ || k == "circle"@ || k == "cross"@ || k == "square"@
        || k == "top"@ || k == "x"@ || k == "invert"@ || k == "random"@ || k == "loop"@
        || k == "load"@ || k == "save"@ || k == "print"@ || k == "repl"@ || k == "verbose"@)
    ||| f.len() == 2 && (k == "for"@ && is_count(f[1]) || k == "load"@ || k == "save"@
        || k == "rotate"@ && is_decimal(f[1]))
    ||| f.len() == 3 && (k == "mod"@ && is_count(f[1]) && is_count(f[2])
        || k == "rows"@ && is_count(f[1]) && is_count(f[2])
        || k == "resize"@ && is_side(f[1]) && is_side(f[2])
        || k == "rotate-color"@ && spec_axis(f[1]) is Some && is_decimal(f[2]))
}

/// Whether `c` is the command that the fields `f` spell.
pub open spec fn describes(f: Seq<Seq<char>>, c: Command) -> bool {
    let k = f[0];
    match c {
        Command::Filter(Filter::All) => f.len() == 1 && k == "all"@,
        Command::Filter(Filter::Circle) => f.len() == 1 && k == "circle"@,
        Command::Filter(Filter::Cross) => f.len() == 1 && k == "cross"@,
        Command::Filter(Filter::Square) => f.len() == 1 && k == "square"@,
        Command::Filter(Filter::Top) => f.len() == 1 && k == "top"@,
        Command::Filter(Filter::X) => f.len() == 1 && k == "x"@,
        Command::Filter(Filter::Mod { divisor, remainder }) => f.len() == 3 && k == "mod"@
            && is_count(f[1]) && is_count(f[2]) && divisor == digits_value(f[1])
            && remainder == digits_value(f[2]),
        Command::Filter(Filter::Rows { nrows, step }) => f.len() == 3 && k == "rows"@
            && is_count(f[1]) && is_count(f[2]) && nrows == digits_value(f[1])
            && step == digits_value(f[2]),
        Command::For(n) => f.len() == 2 && k == "for"@ && is_count(f[1]) && n == digits_value(f[1]),
        Command::Load(None) => f.len() == 1 && k == "load"@,
        Command::Load(Some(p)) => f.len() == 2 && k == "load"@ && p@ == f[1],
        Command::Loop => f.len() == 1 && k == "loop"@,
        Command::Operation(Operation::Invert) => f.len() == 1 && k == "invert"@,
        Command::Operation(Operation::Random) => f.len() == 1 && k == "random"@,
        Command::Operation(Operation::RotateColor(_)) => false,
        Command::Print => f.len() == 1 && k == "print"@,
        Command::Repl => f.len() == 1 && k == "repl"@,
        Command::Resize { cols, rows } => f.len() == 3 && k == "resize"@ && is_side(f[1])
            && is_side(f[2]) && cols == digits_value(f[1]) && rows == digits_value(f[2]),
        Command::Rotate(t) => f.len() == 2 && k == "rotate"@ && is_decimal(f[1]) && t@ == f[1],
        Command::RotateColor(axis, t) => f.len() == 3 && k == "rotate-color"@
            && spec_axis(f[1]) == Some(axis) && is_decimal(f[2]) && t@ == f[2],
        Command::Save(None) => f.len() == 1 && k == "save"@,
        Command::Save(Some(p)) => f.len() == 2 && k == "save"@ && p@ == f[1],
        Command::Verbose => f.len() == 1 && k == "verbose"@,
    }
}

fn is_word(f: &Vec<char>, w: &str) -> (b: bool)
    ensures
        b == (f@ == w@),
{
    let wc = chars_of(w);
    if f.len() != wc.len() {
        return false;
    }
    let mut i: usize = 0;
    while i < f.len()
        invariant
            f@.len() == wc@.len(),
            wc@ == w@,
            i <= f@.len(),
            forall|k: int| 0 <= k < i ==> f@[k] == wc@[k],
        decreases f@.len() - i,
    {
        if f[i] != wc[i] {
            return false;
        }
        i += 1;
    }
    assert(f@ =~= wc@);
    true
}

fn parse_axis(f: &Vec<char>) -> (r: Option<Axis>)
    ensures
        r == spec_axis(f@),
{
    if is_word(f, "x") {
        Some(Axis::Red)
    } else if is_word(f, "y") {
        Some(Axis::Green)
    } else if is_word(f, "z") {
        Some(Axis::Blue)
    } else {
        None
    }
}

impl Command {
    /// Reads one command from a line: colon-separated fields, the first a
    /// keyword. Fails, naming the line, where the fields spell no command.
    pub fn parse(s: &str) -> (r: Result<Command, ParseError>)
        ensures
            r is Ok <==> is_command(split_fields(s@)),
            r matches Ok(c) ==> describes(split_fields(s@), c),
            r matches Err(e) ==> e.text@ == s@,
    {
        let cs = chars_of(s);
        let f = split(&cs);
        let ghost sf = split_fields(s@);
        assert(f@.len() >= 1) by {
            assert(f@.len() == sf.len());
            if cs@.len() > 0 {
                crate::text::lemma_split_nonempty(cs@.drop_last());
            }
        }
        assert(f@[0]@ == sf[0]);
        let n = f.len();
        let k = &f[0];
        let max_count = usize::MAX as u64;
        proof {
            reveal_strlit("for");
            reveal_strlit("load");
            reveal_strlit("save");
            reveal_strlit("rotate");
            reveal_strlit("mod");
            reveal_strlit("rows");
            reveal_strlit("resize");
            reveal_strlit("rotate-color");
        }
        if n == 1 {
            if is_word(k, "all") {
                return Ok(Command::Filter(Filter::All));
            } else if is_word(k, "circle") {
                return Ok(Command::Filter(Filter::Circle));
            } else if is_word(k, "cross") {
                return Ok(Command::Filter(Filter::Cross));
            } else if is_word(k, "square") {
                return Ok(Command::Filter(Filter::Square));
            } else if is_word(k, "top") {
                return Ok(Command::Filter(Filter::Top));
            } else if is_word(k, "x") {
                return Ok(Command::Filter(Filter::X));
            } else if is_word(k, "invert") {
                return Ok(Command::Operation(Operation::Invert));
            } else if is_word(k, "random") {
                return Ok(Command::Operation(Operation::Random));
            } else if is_word(k, "loop") {
                return Ok(Command::Loop);
            } else if is_word(k, "load") {
                return Ok(Command::Load(None));
            } else if is_word(k, "save") {
                return Ok(Command::Save(None));
            } else if is_word(k, "print") {
                return Ok(Command::Print);
            } else if is_word(k, "repl") {
                return Ok(Command::Repl);
            } else if is_word(k, "verbose") {
                return Ok(Command::Verbose);
            }
        } else if n == 2 {
            assert(f@[1]@ == sf[1]);
            if is_word(k, "for") {
                if let Some(v) = parse_number(&f[1], max_count) {
                    return Ok(Command::For(v as usize));
                }
            } else if is_word(k, "load") {
                return Ok(Command::Load(Some(string_of(&f[1]))));
            } else if is_word(k, "save") {
                return Ok(Command::Save(Some(string_of(&f[1]))));
            } else if is_word(k, "rotate") {
                if check_decimal(&f[1]) {
                    return Ok(Command::Rotate(string_of(&f[1])));
                }
            }
        } else if n == 3 {
            assert(f@[1]@ == sf[1]);
            assert(f@[2]@ == sf[2]);
            if is_word(k, "mod") {
                if let (Some(a), Some(b)) = (parse_number(&f[1], max_count), parse_number(&f[2], max_count)) {
                    return Ok(Command::Filter(Filter::Mod { divisor: a as usize, remainder: b as usize }));
                }
            } else if is_word(k, "rows") {
                if let (Some(a), Some(b)) = (parse_number(&f[1], max_count), parse_number(&f[2], max_count)) {
                    return Ok(Command::Filter(Filter::Rows { nrows: a as usize, step: b as usize }));
                }
            } else if is_word(k, "resize") {
                let side = MAX_SIDE as u64;
                if let (Some(a), Some(b)) = (parse_number(&f[1], side), parse_number(&f[2], side)) {
                    return Ok(Command::Resize { cols: a as usize, rows: b as usize });
                }
            } else if is_word(k, "rotate-color") {
                if let Some(axis) = parse_axis(&f[1]) {
                    if check_decimal(&f[2]) {
                        return Ok(Command::RotateColor(axis, string_of(&f[2])));
                    }
                }
            }
        }
        Err(ParseError { text: s.to_owned() })
    }
}

impl std::str::FromStr for Command {
    type Err = ParseError;

    fn from_str(s: &str) -> (r: Result<Command, ParseError>)
        ensures
            r is Ok <==> is_command(split_fields(s@)),
            r matches Ok(c) ==> describes(split_fields(s@), c),
            r matches Err(e) ==> e.text@ == s@,
    {
        Command::parse(s)
    }
}

} // verus!
