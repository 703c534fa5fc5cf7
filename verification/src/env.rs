//! The directories in which the application keeps its files, and the names it gives to
//! what it puts there.
//!
//! Nothing here touches the file system. The caller makes the directories and tells what
//! came of it.

use vstd::prelude::*;
use vstd::string::*;
use crate::errors::Illusion;

verus! {

/// The directories of the application.
#[derive(Clone, Copy, Debug, PartialEq, Eq, Structural)]
pub enum Directory {
    Data,
    Runtime,
}

/// What stands at a path of the file system.
#[derive(Clone, Copy, Debug, PartialEq, Eq, Structural)]
pub enum PathKind {
    Missing,
    Directory,
    Other,
}

/// What is left to do to have a directory at a path.
#[derive(Clone, Copy, Debug, PartialEq, Eq, Structural)]
pub enum MkdirStep {
    /// The directory is there.
    Ready,
    /// The directory has to be made.
    Create,
}

/// The directories that the application could make for itself.
pub struct Env {
    pub data_dir: Option<String>,
    pub runtime_dir: Option<String>,
}

/// The character that stands for the digit `digit`.
pub open spec fn digit_char(digit: nat) -> char {
    if digit == 0 {
        '0'
    } else if digit == 1 {
        '1'
    } else if digit == 2 {
        '2'
    } else if digit == 3 {
        '3'
    } else if digit == 4 {
        '4'
    } else if digit == 5 {
        '5'
    } else if digit == 6 {
        '6'
    } else if digit == 7 {
        '7'
    } else if digit == 8 {
        '8'
    } else {
        '9'
    }
}

/// The number `number` in decimal digits, without leading zeros.
pub open spec fn decimal(number: nat) -> Seq<char>
    decreases number,
{
    if number < 10 {
        seq![digit_char(number)]
    } else {
        decimal(number / 10).push(digit_char(number % 10))
    }
}

/// The number `number` in decimal digits, with zeros in front up to the width `width`.
pub open spec fn padded(number: nat, width: nat) -> Seq<char> {
    let digits = decimal(number);
    if digits.len() >= width {
        digits
    } else {
        Seq::new((width - digits.len()) as nat, |i: int| '0') + digits
    }
}

/// The name of a moment: the day of the year in three digits, then hour, minute and second
/// in two digits each, with hyphens between them.
pub open spec fn time_representation(yday: nat, hour: nat, min: nat, sec: nat) -> Seq<char> {
    padded(yday, 3) + seq!['-'] + padded(hour, 2) + seq!['-'] + padded(min, 2) + seq!['-']
        + padded(sec, 2)
}

/// A moment: the day of the year, counted from zero, and the hour, minute and second of
/// the day.
#[derive(Clone, Copy, Debug, PartialEq, Eq, Structural)]
pub struct Moment {
    pub yday: u32,
    pub hour: u32,
    pub min: u32,
    pub sec: u32,
}

impl Moment {
    /// The name of the moment.
    pub open spec fn text(self) -> Seq<char> {
        time_representation(self.yday as nat, self.hour as nat, self.min as nat, self.sec as nat)
    }

    /// The name of the moment, as it is used in the names of files and directories.
    pub fn representation(&self) -> (text: String)
        ensures
            text@ == self.text(),
    {
        Env::get_time_representation(self.yday, self.hour, self.min, self.sec)
    }
}

/// The path that the environment names, or `default_path` where it names none.
pub open spec fn named_or(named: Option<String>, default_path: Seq<char>) -> Seq<char> {
    match named {
        Some(value) => value@,
        None => default_path,
    }
}

/// The path of what is called `name` in the directory `base`: the two with a slash between
/// them, unless the directory's path ends in one already. With no directory at all it is the
/// name alone.
pub open spec fn joined(base: Seq<char>, name: Seq<char>) -> Seq<char> {
    if base.len() == 0 {
        name
    } else if base.last() == '/' {
        base + name
    } else {
        base + seq!['/'] + name
    }
}

/// The path of the data directory.
pub open spec fn data_dir_text(named: Option<String>) -> Seq<char> {
    named_or(named, "/tmp/perceptia"@)
}

/// The path of the runtime directory of an application that is started at `moment`.
pub open spec fn runtime_dir_text(named: Option<String>, moment: Moment) -> Seq<char> {
    joined(named_or(named, "/tmp"@), "perceptia-"@ + moment.text())
}

/// The path of the log that is begun at `moment` in the directory `data_dir`.
pub open spec fn log_text(data_dir: Seq<char>, moment: Moment) -> Seq<char> {
    joined(data_dir, "log-"@ + moment.text())
}

/// The path of what is called `name` in the directory `base`.
pub fn join(base: String, name: &str) -> (path: String)
    ensures
        path@ == joined(base@, name@),
{
    let length = base.as_str().unicode_len();
    if length == 0 {
        String::from_str(name)
    } else {
        let last = base.as_str().get_char(length - 1);
        let mut path = base;
        if last != '/' {
            proof {
                reveal_strlit("/");
            }
            path.append("/");
            proof {
                assert("/"@ =~= seq!['/']);
            }
        }
        path.append(name);
        path
    }
}

/// The text of the digit `digit`.
fn digit_str(digit: u32) -> (text: &'static str)
    requires
        digit < 10,
    ensures
        text@ == seq![digit_char(digit as nat)],
{
    proof {
        reveal_strlit("0");
        reveal_strlit("1");
        reveal_strlit("2");
        reveal_strlit("3");
        reveal_strlit("4");
        reveal_strlit("5");
        reveal_strlit("6");
        reveal_strlit("7");
        reveal_strlit("8");
        reveal_strlit("9");
    }
    let text = if digit == 0 {
        "0"
    } else if digit == 1 {
        "1"
    } else if digit == 2 {
        "2"
    } else if digit == 3 {
        "3"
    } else if digit == 4 {
        "4"
    } else if digit == 5 {
        "5"
    } else if digit == 6 {
        "6"
    } else if digit == 7 {
        "7"
    } else if digit == 8 {
        "8"
    } else {
        "9"
    };
    assert(text@ =~= seq![digit_char(digit as nat)]);
    text
}

/// The number `number` in decimal digits.
pub fn decimal_string(number: u32) -> (text: String)
    ensures
        text@ == decimal(number as nat),
    decreases number,
{
    if number < 10 {
        String::from_str(digit_str(number))
    } else {
        let front = decimal_string(number / 10);
        let ghost before = front@;
        let text = front.concat(digit_str(number % 10));
        assert(text@ =~= before.push(digit_char((number % 10) as nat)));
        text
    }
}

/// The number `number` in decimal digits, with zeros in front up to the width `width`.
pub fn padded_string(number: u32, width: usize) -> (text: String)
    ensures
        text@ == padded(number as nat, width as nat),
{
    let digits = decimal_string(number);
    let length = digits.as_str().unicode_len();
    if length >= width {
        digits
    } else {
        let missing = width - length;
        let mut text = String::new();
        let mut done: usize = 0;
        proof {
            reveal_strlit("0");
            assert(text@ =~= Seq::new(0, |i: int| '0'));
        }
        while done < missing
            invariant
                done <= missing,
                text@ == Seq::new(done as nat, |i: int| '0'),
            decreases missing - done,
        {
            text.append("0");
            proof {
                reveal_strlit("0");
                assert(text@ =~= Seq::new((done + 1) as nat, |i: int| '0'));
            }
            done = done + 1;
        }
        text.append(digits.as_str());
        text
    }
}

impl Env {
    /// The path that is used for a directory: the one that the environment names, or
    /// `default_path` where it names none.
    pub fn read_path(named: Option<String>, default_path: &str) -> (path: String)
        ensures
            path@ == match named {
                Some(value) => value@,
                None => default_path@,
            },
    {
        match named {
            Some(value) => value,
            None => String::from_str(default_path),
        }
    }

    /// The name of the moment at second `sec` of minute `min` of hour `hour` of day `yday`
    /// of the year, as it is used in the names of files and directories.
    pub fn get_time_representation(yday: u32, hour: u32, min: u32, sec: u32) -> (text: String)
        ensures
            text@ == time_representation(yday as nat, hour as nat, min as nat, sec as nat),
    {
        proof {
            reveal_strlit("-");
        }
        let mut text = padded_string(yday, 3);
        text.append("-");
        text.append(padded_string(hour, 2).as_str());
        text.append("-");
        text.append(padded_string(min, 2).as_str());
        text.append("-");
        text.append(padded_string(sec, 2).as_str());
        proof {
            assert("-"@ =~= seq!['-']);
        }
        text
    }

    /// What is left to do to have a directory at a path where `kind` stands: nothing
    /// where a directory stands, making it where nothing stands. Where something else
    /// stands there can be no directory.
    pub fn mkdir(kind: PathKind) -> (step: Result<MkdirStep, Illusion>)
        ensures
            kind == PathKind::Directory ==> step == Ok::<MkdirStep, Illusion>(MkdirStep::Ready),
            kind == PathKind::Missing ==> step == Ok::<MkdirStep, Illusion>(MkdirStep::Create),
            kind == PathKind::Other ==> (step matches Err(Illusion::InvalidArgument(text))
                && text@ == "Path is not directory!"@),
    {
        match kind {
            PathKind::Directory => Ok(MkdirStep::Ready),
            PathKind::Missing => Ok(MkdirStep::Create),
            PathKind::Other => Err(
                Illusion::InvalidArgument(String::from_str("Path is not directory!")),
            ),
        }
    }

    /// The path of the data directory: the one that the environment names, or the place
    /// that is used where it names none.
    pub fn data_dir_path(named: Option<String>) -> (path: String)
        ensures
            path@ == data_dir_text(named),
    {
        Self::read_path(named, "/tmp/perceptia")
    }

    /// The path of the runtime directory at the moment `moment`: a directory with the
    /// moment in its name, in the directory that the environment names, or in the place that
    /// is used where it names none.
    pub fn runtime_dir_path(named: Option<String>, moment: Moment) -> (path: String)
        ensures
            path@ == runtime_dir_text(named, moment),
    {
        proof {
            reveal_strlit("perceptia-");
        }
        let mut name = String::from_str("perceptia-");
        name.append(moment.representation().as_str());
        join(Self::read_path(named, "/tmp"), name.as_str())
    }

    /// The path of the log that is begun at the moment `moment` in the data directory
    /// `data_dir`.
    pub fn log_path(data_dir: String, moment: Moment) -> (path: String)
        ensures
            path@ == log_text(data_dir@, moment),
    {
        proof {
            reveal_strlit("log-");
        }
        let mut name = String::from_str("log-");
        name.append(moment.representation().as_str());
        join(data_dir, name.as_str())
    }

    /// The environment of an application that is started at the moment `moment`, where the
    /// environment names `data_home` and `runtime_home` as the places of its directories.
    /// Each directory is recorded with its path if it could be made, as `data_made` and
    /// `runtime_made` tell.
    pub fn create(
        data_home: Option<String>,
        data_made: bool,
        runtime_home: Option<String>,
        moment: Moment,
        runtime_made: bool,
    ) -> (env: Env)
        ensures
            env.data_dir.is_some() == data_made,
            env.data_dir matches Some(path) ==> path@ == data_dir_text(data_home),
            env.runtime_dir.is_some() == runtime_made,
            env.runtime_dir matches Some(path) ==> path@ == runtime_dir_text(
                runtime_home,
                moment,
            ),
    {
        let mut mine = Env { data_dir: None, runtime_dir: None };
        mine.create_data_dir(data_home, data_made);
        mine.create_runtime_dir(runtime_home, moment, runtime_made);
        mine
    }

    /// Records the data directory, at the path that follows from what the environment
    /// names, if it could be made, and tells whether it could.
    pub fn create_data_dir(&mut self, named: Option<String>, made: bool) -> (ok: bool)
        ensures
            ok == made,
            made ==> (final(self).data_dir matches Some(path) && path@ == data_dir_text(named)),
            !made ==> final(self).data_dir == old(self).data_dir,
            final(self).runtime_dir == old(self).runtime_dir,
    {
        if made {
            self.data_dir = Some(Self::data_dir_path(named));
        }
        made
    }

    /// Records the runtime directory, at the path that follows from what the environment
    /// names and from the moment `moment`, if it could be made, and tells whether it could.
    pub fn create_runtime_dir(&mut self, named: Option<String>, moment: Moment, made: bool) -> (ok:
        bool)
        ensures
            ok == made,
            made ==> (final(self).runtime_dir matches Some(path) && path@ == runtime_dir_text(
                named,
                moment,
            )),
            !made ==> final(self).runtime_dir == old(self).runtime_dir,
            final(self).data_dir == old(self).data_dir,
    {
        if made {
            self.runtime_dir = Some(Self::runtime_dir_path(named, moment));
        }
        made
    }

    /// Tells whether a log can be kept: it is kept in the data directory.
    pub fn keeps_log(&self) -> (kept: bool)
        ensures
            kept == self.data_dir.is_some(),
    {
        self.data_dir.is_some()
    }

    /// The directory `dir`, in which a file is to be opened. A directory that could not be
    /// made is not available.
    pub fn directory(&self, dir: Directory) -> (path: Result<String, Illusion>)
        ensures
            match (if dir == Directory::Data {
                self.data_dir
            } else {
                self.runtime_dir
            }) {
                Some(wanted) => (path matches Ok(found) && found@ == wanted@),
                None => (path matches Err(Illusion::General(text)) && text@
                    == "Requested directory is not available"@),
            },
    {
        let wanted = match dir {
            Directory::Data => &self.data_dir,
            Directory::Runtime => &self.runtime_dir,
        };
        match wanted {
            Some(path) => Ok(path.clone()),
            None => Err(
                Illusion::General(String::from_str("Requested directory is not available")),
            ),
        }
    }
}

} // verus!
