//! The command line of a script: its arguments, parsed with clap.
use crate::args;
use crate::args::{ArgTy, ExpectedArg, ExpectedView};
use crate::maps;
use crate::maps::{insert_text, new_text_map};
use crate::text;
use crate::text::concat;
use rustc_hash::FxHashMap;
use vstd::prelude::*;
use vstd::string::*;

verus! {

/// An argument as it is declared to clap: a flag, or an option with a value.
pub struct CliArg {
    pub name: Seq<char>,
    pub flag: bool,
    pub default_value: Option<Seq<char>>,
}

/// The value of an argument after clap has parsed a command line.
pub enum CliValue {
    Flag(bool),
    Text(Seq<char>),
}

/// The name of a command and how it takes a line.
pub struct CliSettings {
    pub name: Seq<char>,
    /// The line does not begin with the name of the program.
    pub no_binary_name: bool,
    /// What is wrong on the line is passed over.
    pub ignore_errors: bool,
    /// What is not known may be the name of another command.
    pub allow_external_subcommands: bool,
}

/// The settings of the command line of a script.
pub open spec fn script_settings(name: Seq<char>) -> CliSettings {
    CliSettings {
        name,
        no_binary_name: true,
        ignore_errors: true,
        allow_external_subcommands: true,
    }
}

/// The command of clap.
#[verifier::external_type_specification]
#[verifier::external_body]
pub struct ExCommand(clap::Command);

/// The arguments that clap has found.
#[verifier::external_type_specification]
#[verifier::external_body]
pub struct ExArgMatches(clap::ArgMatches);

/// The arguments that are declared to a command, in their order.
pub uninterp spec fn command_args(c: clap::Command) -> Seq<CliArg>;

/// The name of a command and how it takes a line.
pub uninterp spec fn command_settings(c: clap::Command) -> CliSettings;

/// The values that clap has found, by the names of the arguments.
pub uninterp spec fn match_values(m: clap::ArgMatches) -> Map<Seq<char>, CliValue>;

/// The help that clap gives for a command with this name and declared arguments, where it is
/// asked for on the line.
pub uninterp spec fn cli_help(
    name: Seq<char>,
    declared: Seq<CliArg>,
    line: Seq<Seq<char>>,
) -> Seq<char>;

/// The values that clap finds on the command line of a script for declared arguments; nothing
/// where it is asked for help.
pub uninterp spec fn cli_outcome(declared: Seq<CliArg>, line: Seq<Seq<char>>) -> Option<
    Map<Seq<char>, CliValue>,
>;

/// The names of declared arguments: no two the same, none that clap itself declares, and none
/// with the hyphens that clap adds.
pub open spec fn declarable(declared: Seq<CliArg>) -> bool {
    &&& forall|i: int, j: int|
        0 <= i < j < declared.len() ==> (#[trigger] declared[i]).name != (
        #[trigger] declared[j]).name
    &&& forall|i: int|
        0 <= i < declared.len() ==> (#[trigger] declared[i]).name != "help"@ && !(
        declared[i].name.len() > 0 && declared[i].name[0] == '-')
}

/// The values without a command line: a flag is not set, and an option has its default.
pub open spec fn cli_defaults(declared: Seq<CliArg>) -> Map<Seq<char>, CliValue>
    decreases declared.len(),
{
    if declared.len() == 0 {
        Map::empty()
    } else {
        let before = cli_defaults(declared.drop_last());
        let last = declared.last();
        if last.flag {
            before.insert(last.name, CliValue::Flag(false))
        } else {
            match last.default_value {
                Some(t) => before.insert(last.name, CliValue::Text(t)),
                None => before,
            }
        }
    }
}

/// Calls `Command::new`, and sets the command to take a line without the name of the program,
/// to pass over what it does not know, and to take other commands.
#[verifier::external_body]
fn new_command(name: &str) -> (r: clap::Command)
    ensures
        command_args(r) == Seq::<CliArg>::empty(),
        command_settings(r) == script_settings(name@),
{
    clap::Command::new(name.to_owned())
        .no_binary_name(true)
        .ignore_errors(true)
        .allow_external_subcommands(true)
}

/// Calls `Command::arg` with a flag, which is true where the line holds it.
#[verifier::external_body]
fn declare_flag(c: clap::Command, name: &str) -> (r: clap::Command)
    ensures
        command_args(r) == command_args(c).push(
            (CliArg { name: name@, flag: true, default_value: None }),
        ),
        command_settings(r) == command_settings(c),
{
    c.arg(clap::Arg::new(name.to_owned()).long(name.to_owned()).action(clap::ArgAction::SetTrue))
}

/// Calls `Command::arg` with an option that has one value and no default.
#[verifier::external_body]
fn declare_option(c: clap::Command, name: &str) -> (r: clap::Command)
    ensures
        command_args(r) == command_args(c).push(
            (CliArg { name: name@, flag: false, default_value: None }),
        ),
        command_settings(r) == command_settings(c),
{
    c.arg(clap::Arg::new(name.to_owned()).long(name.to_owned()))
}

/// Calls `Command::arg` with an option that has one value, and a default.
#[verifier::external_body]
fn declare_default(c: clap::Command, name: &str, default_value: String) -> (r: clap::Command)
    ensures
        command_args(r) == command_args(c).push(
            (CliArg { name: name@, flag: false, default_value: Some(default_value@) }),
        ),
        command_settings(r) == command_settings(c),
{
    c.arg(clap::Arg::new(name.to_owned()).long(name.to_owned()).default_value(default_value))
}

/// Calls `Command::try_get_matches_from`. What it finds is a function of the arguments that are
/// declared and of the line, and is named `cli_outcome`. An empty line gives the defaults.
/// The error where it is asked for help is written out; that text depends on the name of the
/// command too, and is named `cli_help`. Builds of clap with debug assertions panic on names
/// that cannot be declared.
#[verifier::external_body]
fn parse_line(c: clap::Command, line: &Vec<String>) -> (r: Result<clap::ArgMatches, String>)
    requires
        declarable(command_args(c)),
        command_settings(c) == script_settings(command_settings(c).name),
    ensures
        r matches Err(help) ==> help@ == cli_help(
            command_settings(c).name,
            command_args(c),
            text::texts(line@),
        ),
        r is Ok == cli_outcome(command_args(c), text::texts(line@)) is Some,
        r matches Ok(m) ==> cli_outcome(command_args(c), text::texts(line@)) == Some(match_values(m)),
        line@.len() == 0 ==> r is Ok,
        line@.len() == 0 ==> (r matches Ok(m) ==> match_values(m) == cli_defaults(command_args(c))),
{
    match c.try_get_matches_from(line) {
        Ok(m) => Ok(m),
        Err(e) => Err(e.render().to_string()),
    }
}

/// Calls `ArgMatches::try_get_one` for the value of a flag.
#[verifier::external_body]
fn flag_value(m: &clap::ArgMatches, name: &str) -> (r: Option<bool>)
    ensures
        r == match match_values(*m).get(name@) {
            Some(CliValue::Flag(b)) => Some(b),
            _ => None,
        },
{
    m.try_get_one::<bool>(name).ok().flatten().copied()
}

/// Calls `ArgMatches::try_get_one` for the value of an option.
#[verifier::external_body]
fn option_value(m: &clap::ArgMatches, name: &str) -> (r: Option<String>)
    ensures
        r is Some == (match_values(*m).get(name@) matches Some(CliValue::Text(_))),
        r matches Some(t) ==> match_values(*m).get(name@) == Some(CliValue::Text(t@)),
{
    m.try_get_one::<String>(name).ok().flatten().cloned()
}

/// How an argument of a script is declared. One that is true or false is a flag, which can only
/// be turned on. There is no second argument that turns it off under the same name: clap finds
/// the first one by that name, and its debug assertions refuse a name that two arguments have.
pub open spec fn declaration(e: ExpectedView) -> CliArg {
    if e.ty == ArgTy::Bool {
        CliArg { name: e.name, flag: true, default_value: None }
    } else {
        CliArg {
            name: e.name,
            flag: false,
            default_value: match e.default_value {
                Some(v) => Some(args::shown(v)),
                None => None,
            },
        }
    }
}

/// Where the argument with a name stands in a list.
pub open spec fn place(declared: Seq<CliArg>, name: Seq<char>) -> Option<int>
    decreases declared.len(),
{
    if declared.len() == 0 {
        None
    } else if declared.last().name == name {
        Some(declared.len() - 1)
    } else {
        place(declared.drop_last(), name)
    }
}

/// A list of arguments with one more. An argument that is asked for again stays where it is, and
/// has the first default that is given for it.
pub open spec fn with_declaration(declared: Seq<CliArg>, arg: CliArg) -> Seq<CliArg> {
    match place(declared, arg.name) {
        Some(i) => if declared[i].default_value is None {
            declared.update(i, CliArg { default_value: arg.default_value, ..declared[i] })
        } else {
            declared
        },
        None => declared.push(arg),
    }
}

/// How the arguments of a script are declared, in the order in which it first asks for them.
pub open spec fn declarations(expected: Seq<ExpectedView>) -> Seq<CliArg>
    decreases expected.len(),
{
    if expected.len() == 0 {
        Seq::empty()
    } else {
        with_declaration(declarations(expected.drop_last()), declaration(expected.last()))
    }
}

/// The name that turns a flag around: with `no-` before it, or without where it has that.
pub open spec fn negated(name: Seq<char>) -> Seq<char> {
    if starts_with_no(name) {
        name.skip(3)
    } else {
        "no-"@ + name
    }
}

/// Whether a name begins with `no-`.
pub open spec fn starts_with_no(name: Seq<char>) -> bool {
    name.len() >= 3 && name[0] == 'n' && name[1] == 'o' && name[2] == '-'
}

/// The name that turns a flag around.
pub fn negated_name(name: &str) -> (r: String)
    ensures
        r@ == negated(name@),
{
    let n = name.unicode_len();
    if n >= 3 && name.get_char(0) == 'n' && name.get_char(1) == 'o' && name.get_char(2) == '-' {
        assert(name@.subrange(3, n as int) =~= name@.skip(3));
        name.substring_char(3, n).to_owned()
    } else {
        concat("no-", name)
    }
}

/// Whether an argument can be declared beside another, or beside itself: it is not once a flag
/// and once an option, and the name that turns a flag around is left free.
pub open spec fn compatible(a: ExpectedView, b: ExpectedView) -> bool {
    &&& a.name == b.name ==> (a.ty == ArgTy::Bool) == (b.ty == ArgTy::Bool)
    &&& a.ty == ArgTy::Bool ==> negated(a.name) != b.name
    &&& a.ty == ArgTy::Bool && b.ty == ArgTy::Bool && a.name != b.name ==> negated(a.name)
        != negated(b.name)
}

/// Whether an argument can be declared: neither its name nor the one that turns it around is
/// `help`, and its name does not begin with a hyphen.
pub open spec fn nameable(a: ExpectedView) -> bool {
    &&& a.name != "help"@
    &&& a.ty == ArgTy::Bool ==> negated(a.name) != "help"@
    &&& !(a.name.len() > 0 && a.name[0] == '-')
}

/// Whether the arguments of a script can be declared.
pub open spec fn acceptable(expected: Seq<ExpectedView>) -> bool {
    &&& forall|i: int| 0 <= i < expected.len() ==> nameable(#[trigger] expected[i])
    &&& forall|i: int, j: int|
        0 <= i < expected.len() && 0 <= j < expected.len() ==> compatible(
            #[trigger] expected[i],
            #[trigger] expected[j],
        )
}

/// Tells whether an argument is a flag.
fn is_flag(e: &ExpectedArg) -> (r: bool)
    ensures
        r == (e@.ty == ArgTy::Bool),
{
    match e.ty {
        ArgTy::Bool => true,
        _ => false,
    }
}

/// Tells whether an argument can be declared beside another.
fn check_compatible(a: &ExpectedArg, b: &ExpectedArg) -> (r: bool)
    ensures
        r == compatible(a@, b@),
{
    let same = a.name == b.name;
    if same && is_flag(a) != is_flag(b) {
        return false;
    }
    if !is_flag(a) {
        return true;
    }
    let other = negated_name(a.name.as_str());
    if other == b.name {
        return false;
    }
    same || !is_flag(b) || other != negated_name(b.name.as_str())
}

/// Tells whether an argument can be declared.
fn check_nameable(a: &ExpectedArg) -> (r: bool)
    ensures
        r == nameable(a@),
{
    let help = "help".to_owned();
    let n = a.name.as_str().unicode_len();
    if a.name == help || (n > 0 && a.name.as_str().get_char(0) == '-') {
        return false;
    }
    !is_flag(a) || negated_name(a.name.as_str()) != help
}

/// Tells whether an argument can be declared beside all of a list.
fn check_beside(a: &ExpectedArg, expected: &Vec<ExpectedArg>) -> (r: bool)
    ensures
        r == forall|j: int| 0 <= j < expected@.len() ==> compatible(a@, (#[trigger] expected@[j])@),
{
    let mut j: usize = 0;
    while j < expected.len()
        invariant
            j <= expected@.len(),
            forall|k: int| 0 <= k < j ==> compatible(a@, (#[trigger] expected@[k])@),
        decreases expected@.len() - j,
    {
        if !check_compatible(a, &expected[j]) {
            assert(!compatible(a@, expected@[j as int]@));
            return false;
        }
        j = j + 1;
    }
    true
}

/// Tells whether the arguments of a script can be declared.
pub fn check_acceptable(expected: &Vec<ExpectedArg>) -> (r: bool)
    ensures
        r == acceptable(args::expected_views(expected@)),
{
    let ghost views = args::expected_views(expected@);
    let mut i: usize = 0;
    while i < expected.len()
        invariant
            i <= expected@.len(),
            views == args::expected_views(expected@),
            forall|k: int| 0 <= k < i ==> nameable(#[trigger] views[k]),
            forall|k: int, j: int|
                0 <= k < i && 0 <= j < views.len() ==> compatible(
                    #[trigger] views[k],
                    #[trigger] views[j],
                ),
        decreases expected@.len() - i,
    {
        let a = &expected[i];
        assert(views[i as int] == a@);
        if !check_nameable(a) {
            return false;
        }
        if !check_beside(a, expected) {
            proof {
                let j = choose|j: int|
                    0 <= j < expected@.len() && !compatible(a@, (#[trigger] expected@[j])@);
                assert(views[j] == expected@[j]@);
            }
            return false;
        }
        proof {
            assert forall|j: int| 0 <= j < views.len() implies compatible(
                views[i as int],
                #[trigger] views[j],
            ) by {
                assert(views[j] == expected@[j]@);
            }
        }
        i = i + 1;
    }
    true
}

/// Where the argument with a name stands, it has that name, and elsewhere none has.
proof fn lemma_place(declared: Seq<CliArg>, name: Seq<char>)
    ensures
        place(declared, name) matches Some(i) ==> 0 <= i < declared.len() && declared[i].name
            == name,
        place(declared, name) is None ==> forall|i: int|
            0 <= i < declared.len() ==> (#[trigger] declared[i]).name != name,
    decreases declared.len(),
{
    if declared.len() > 0 {
        let less = declared.drop_last();
        lemma_place(less, name);
        if place(declared, name) is None {
            assert forall|i: int| 0 <= i < declared.len() implies (#[trigger] declared[i]).name
                != name by {
                if i < less.len() {
                    assert(less[i] == declared[i]);
                }
            }
        }
    }
}

/// The first default that is given for an argument that is not a flag.
pub open spec fn first_default(expected: Seq<ExpectedView>, name: Seq<char>) -> Option<Seq<char>>
    decreases expected.len(),
{
    if expected.len() == 0 {
        None
    } else {
        match first_default(expected.drop_last(), name) {
            Some(t) => Some(t),
            None => if expected.last().name == name {
                declaration(expected.last()).default_value
            } else {
                None
            },
        }
    }
}

/// Where a script asks for an argument that can be declared, it is declared, once, as what it is
/// and with its first default; and nothing else is.
proof fn lemma_declarations(expected: Seq<ExpectedView>)
    requires
        acceptable(expected),
    ensures
        forall|i: int, j: int|
            0 <= i < j < declarations(expected).len() ==> (#[trigger] declarations(
                expected,
            )[i]).name != (#[trigger] declarations(expected)[j]).name,
        forall|k: int|
            0 <= k < declarations(expected).len() ==> (#[trigger] declarations(
                expected,
            )[k]).default_value == first_default(expected, declarations(expected)[k].name),
        forall|k: int, i: int|
            0 <= k < declarations(expected).len() && 0 <= i < expected.len() && (
            #[trigger] expected[i]).name == (#[trigger] declarations(expected)[k]).name
                ==> declarations(expected)[k].flag == (expected[i].ty == ArgTy::Bool),
        forall|i: int|
            0 <= i < expected.len() ==> place(
                declarations(expected),
                (#[trigger] expected[i]).name,
            ) is Some,
        forall|k: int|
            0 <= k < declarations(expected).len() ==> exists|i: int|
                0 <= i < expected.len() && (#[trigger] expected[i]).name == (
                #[trigger] declarations(expected)[k]).name,
    decreases expected.len(),
{
    if expected.len() > 0 {
        let less = expected.drop_last();
        let e = expected.last();
        let n = less.len() as int;
        assert(expected[n] == e);
        assert forall|i: int| 0 <= i < less.len() implies nameable(#[trigger] less[i]) by {
            assert(less[i] == expected[i]);
        }
        assert forall|i: int, j: int| 0 <= i < less.len() && 0 <= j < less.len() implies compatible(
            #[trigger] less[i],
            #[trigger] less[j],
        ) by {
            assert(less[i] == expected[i] && less[j] == expected[j]);
        }
        lemma_declarations(less);
        let old_list = declarations(less);
        let new_list = declarations(expected);
        lemma_place(old_list, e.name);
        assert forall|k: int, i: int|
            0 <= k < new_list.len() && 0 <= i < expected.len() && (#[trigger] expected[i]).name == (
            #[trigger] new_list[k]).name implies new_list[k].flag == (expected[i].ty
            == ArgTy::Bool) by {
            if k < old_list.len() {
                assert(old_list[k].name == new_list[k].name);
                if i < n {
                    assert(less[i] == expected[i]);
                } else {
                    let j = choose|j: int|
                        0 <= j < less.len() && (#[trigger] less[j]).name == old_list[k].name;
                    assert(less[j] == expected[j]);
                    assert(compatible(expected[j], expected[n]));
                }
            } else {
                if i < n {
                    assert(compatible(expected[i], expected[n]));
                }
            }
        }
        if place(old_list, e.name) is None && first_default(less, e.name) is Some {
            lemma_default_is_asked_for(less, e.name);
            let j = choose|j: int| 0 <= j < less.len() && (#[trigger] less[j]).name == e.name;
            lemma_place(old_list, less[j].name);
            assert(false);
        }
        assert forall|k: int| 0 <= k < new_list.len() implies (
        #[trigger] new_list[k]).default_value == first_default(expected, new_list[k].name) by {
            if k < old_list.len() {
                assert(old_list[k].name == new_list[k].name);
                assert(old_list[k].default_value == first_default(less, old_list[k].name));
            }
        }
        assert forall|i: int| 0 <= i < expected.len() implies place(
            new_list,
            (#[trigger] expected[i]).name,
        ) is Some by {
            let name = expected[i].name;
            lemma_place(new_list, name);
            if i < n {
                assert(less[i] == expected[i]);
                lemma_place(old_list, name);
                let k = place(old_list, name).unwrap();
                assert(new_list[k].name == name);
            } else {
                match place(old_list, name) {
                    Some(k) => {
                        assert(new_list[k].name == name);
                    },
                    None => {
                        assert(new_list[old_list.len() as int].name == name);
                    },
                }
            }
        }
        assert forall|k: int| 0 <= k < new_list.len() implies exists|i: int|
            0 <= i < expected.len() && (#[trigger] expected[i]).name == (
            #[trigger] new_list[k]).name by {
            if k < old_list.len() {
                assert(old_list[k].name == new_list[k].name);
                let i = choose|i: int|
                    0 <= i < less.len() && (#[trigger] less[i]).name == old_list[k].name;
                assert(expected[i].name == new_list[k].name);
            } else {
                assert(expected[n].name == new_list[k].name);
            }
        }
        assert forall|i: int, j: int| 0 <= i < j < new_list.len() implies (
        #[trigger] new_list[i]).name != (#[trigger] new_list[j]).name by {
            assert(old_list[i].name == new_list[i].name);
            if j < old_list.len() {
                assert(old_list[j].name == new_list[j].name);
            }
        }
    }
}

/// A default is given only for an argument that is asked for.
proof fn lemma_default_is_asked_for(expected: Seq<ExpectedView>, name: Seq<char>)
    requires
        first_default(expected, name) is Some,
    ensures
        exists|j: int| 0 <= j < expected.len() && (#[trigger] expected[j]).name == name,
    decreases expected.len(),
{
    let less = expected.drop_last();
    if first_default(less, name) is Some {
        lemma_default_is_asked_for(less, name);
        let j = choose|j: int| 0 <= j < less.len() && (#[trigger] less[j]).name == name;
        assert(expected[j].name == name);
    } else {
        assert(expected[expected.len() - 1].name == name);
    }
}

/// An argument to be declared.
struct Declared {
    name: String,
    flag: bool,
    default_value: Option<String>,
}

impl View for Declared {
    type V = CliArg;

    closed spec fn view(&self) -> CliArg {
        CliArg {
            name: self.name@,
            flag: self.flag,
            default_value: match self.default_value {
                Some(t) => Some(t@),
                None => None,
            },
        }
    }
}

/// The arguments of a list.
spec fn declared_views(list: Seq<Declared>) -> Seq<CliArg> {
    list.map_values(|d: Declared| d@)
}

/// How an argument of a script is declared.
fn to_declared(e: &ExpectedArg) -> (r: Declared)
    ensures
        r@ == declaration(e@),
{
    if is_flag(e) {
        Declared { name: e.name.clone(), flag: true, default_value: None }
    } else {
        let default_value = match &e.default_value {
            Some(v) => Some(v.to_text()),
            None => None,
        };
        Declared { name: e.name.clone(), flag: false, default_value }
    }
}

/// Finds the argument with a name in a list.
fn find_place(list: &Vec<Declared>, name: &String) -> (r: Option<usize>)
    ensures
        r is Some == place(declared_views(list@), name@) is Some,
        r matches Some(i) ==> place(declared_views(list@), name@) == Some(i as int) && i
            < list@.len(),
{
    let ghost views = declared_views(list@);
    let mut n = list.len();
    assert(views.take(n as int) =~= views);
    while n > 0
        invariant
            n <= list@.len(),
            views == declared_views(list@),
            place(views, name@) == place(views.take(n as int), name@),
        decreases n,
    {
        let i = n - 1;
        proof {
            assert(views.take(n as int).last() == list@[i as int]@);
            assert(views.take(n as int).drop_last() =~= views.take(i as int));
        }
        if list[i].name == *name {
            return Some(i);
        }
        n = i;
    }
    None
}

/// Puts an argument on a list.
fn add_declaration(list: &mut Vec<Declared>, d: Declared)
    ensures
        declared_views(final(list)@) == with_declaration(declared_views(old(list)@), d@),
{
    let ghost before = declared_views(list@);
    match find_place(list, &d.name) {
        Some(i) => {
            if list[i].default_value.is_none() {
                let name = list[i].name.clone();
                let flag = list[i].flag;
                list.set(i, Declared { name, flag, default_value: d.default_value });
                assert(declared_views(list@) =~= with_declaration(before, d@));
            }
        },
        None => {
            list.push(d);
            assert(declared_views(list@) =~= before.push(d@));
        },
    }
}

/// The arguments of a script, as they are declared.
fn list_declarations(expected: &Vec<ExpectedArg>) -> (r: Vec<Declared>)
    ensures
        declared_views(r@) == declarations(args::expected_views(expected@)),
{
    let ghost views = args::expected_views(expected@);
    let mut list: Vec<Declared> = Vec::new();
    let mut i: usize = 0;
    assert(declared_views(list@) =~= declarations(views.take(0)));
    while i < expected.len()
        invariant
            i <= expected@.len(),
            views == args::expected_views(expected@),
            declared_views(list@) == declarations(views.take(i as int)),
        decreases expected@.len() - i,
    {
        proof {
            assert(views.take(i + 1).drop_last() =~= views.take(i as int));
            assert(views.take(i + 1).last() == expected@[i as int]@);
        }
        add_declaration(&mut list, to_declared(&expected[i]));
        i = i + 1;
    }
    assert(views.take(i as int) =~= views);
    list
}

/// Declares the arguments of a script.
fn declare_all(name: &str, expected: &Vec<ExpectedArg>) -> (r: clap::Command)
    requires
        acceptable(args::expected_views(expected@)),
    ensures
        command_args(r) == declarations(args::expected_views(expected@)),
        command_settings(r) == script_settings(name@),
{
    let list = list_declarations(expected);
    let ghost views = declared_views(list@);
    proof {
        lemma_flags_have_no_default(args::expected_views(expected@));
    }
    let mut c = new_command(name);
    let mut i: usize = 0;
    assert(command_args(c) =~= views.take(0));
    while i < list.len()
        invariant
            i <= list@.len(),
            views == declared_views(list@),
            forall|k: int|
                0 <= k < views.len() && (#[trigger] views[k]).flag ==> views[k].default_value
                    is None,
            command_args(c) == views.take(i as int),
            command_settings(c) == script_settings(name@),
        decreases list@.len() - i,
    {
        let d = &list[i];
        let ghost before = command_args(c);
        assert(views[i as int] == d@);
        c = if d.flag {
            declare_flag(c, d.name.as_str())
        } else {
            match &d.default_value {
                Some(t) => declare_default(c, d.name.as_str(), t.clone()),
                None => declare_option(c, d.name.as_str()),
            }
        };
        assert(command_args(c) == before.push(d@));
        assert(views.take(i + 1) =~= before.push(d@));
        i = i + 1;
    }
    assert(views.take(i as int) =~= views);
    c
}

/// Flags have no defaults.
proof fn lemma_flags_have_no_default(expected: Seq<ExpectedView>)
    requires
        acceptable(expected),
    ensures
        forall|k: int|
            0 <= k < declarations(expected).len() && (#[trigger] declarations(expected)[k]).flag
                ==> declarations(expected)[k].default_value is None,
{
    lemma_declarations(expected);
    assert forall|k: int|
        0 <= k < declarations(expected).len() && (#[trigger] declarations(
            expected,
        )[k]).flag implies declarations(expected)[k].default_value is None by {
        let name = declarations(expected)[k].name;
        if first_default(expected, name) is Some {
            lemma_default_of_option(expected, name);
            let j = choose|j: int|
                0 <= j < expected.len() && (#[trigger] expected[j]).name == name
                    && expected[j].ty != ArgTy::Bool;
            assert(false);
        }
    }
}

/// A default is given only for an argument that is not a flag.
proof fn lemma_default_of_option(expected: Seq<ExpectedView>, name: Seq<char>)
    requires
        first_default(expected, name) is Some,
    ensures
        exists|j: int|
            0 <= j < expected.len() && (#[trigger] expected[j]).name == name && expected[j].ty
                != ArgTy::Bool,
    decreases expected.len(),
{
    let less = expected.drop_last();
    if first_default(less, name) is Some {
        lemma_default_of_option(less, name);
        let j = choose|j: int|
            0 <= j < less.len() && (#[trigger] less[j]).name == name && less[j].ty != ArgTy::Bool;
        assert(expected[j].name == name);
    } else {
        assert(expected[expected.len() - 1].name == name);
    }
}

/// What a command line came to for an argument.
pub enum Found {
    Flag(bool),
    Text(String),
    Nothing,
}

/// What a command line came to for an argument, in terms of plain values.
pub open spec fn found_value(f: Found) -> Option<CliValue> {
    match f {
        Found::Flag(b) => Some(CliValue::Flag(b)),
        Found::Text(t) => Some(CliValue::Text(t@)),
        Found::Nothing => None,
    }
}

/// What is found for an argument: a flag for one that is true or false, a text for others.
pub open spec fn found_for(e: ExpectedView, values: Map<Seq<char>, CliValue>) -> Option<CliValue> {
    match values.get(e.name) {
        Some(CliValue::Flag(b)) => if e.ty == ArgTy::Bool {
            Some(CliValue::Flag(b))
        } else {
            None
        },
        Some(CliValue::Text(t)) => if e.ty == ArgTy::Bool {
            None
        } else {
            Some(CliValue::Text(t))
        },
        None => None,
    }
}

/// What is found for each of the arguments.
pub open spec fn found_all(
    expected: Seq<ExpectedView>,
    values: Map<Seq<char>, CliValue>,
) -> Seq<Option<CliValue>> {
    expected.map_values(|e: ExpectedView| found_for(e, values))
}

/// The text of a flag.
pub open spec fn flag_text(b: bool) -> Seq<char> {
    if b {
        "true"@
    } else {
        "false"@
    }
}

/// The arguments as text, by name, from what was found for each: a flag as `true` or `false`,
/// an option as its text, and nothing where nothing was found.
pub open spec fn collected(
    expected: Seq<ExpectedView>,
    found: Seq<Option<CliValue>>,
) -> Map<Seq<char>, Seq<char>>
    decreases expected.len(),
{
    if expected.len() == 0 || found.len() == 0 {
        Map::empty()
    } else {
        let before = collected(expected.drop_last(), found.drop_last());
        match found.last() {
            Some(CliValue::Flag(b)) => before.insert(expected.last().name, flag_text(b)),
            Some(CliValue::Text(t)) => before.insert(expected.last().name, t),
            None => before,
        }
    }
}

/// The first flag of a script that has no value.
pub open spec fn unset_flag(
    expected: Seq<ExpectedView>,
    found: Seq<Option<CliValue>>,
) -> Option<Seq<char>>
    decreases expected.len(),
{
    if expected.len() == 0 || found.len() == 0 {
        None
    } else {
        match unset_flag(expected.drop_last(), found.drop_last()) {
            Some(name) => Some(name),
            None => if expected.last().ty == ArgTy::Bool && found.last() is None {
                Some(expected.last().name)
            } else {
                None
            },
        }
    }
}

/// The values of what was found.
pub open spec fn found_values(found: Seq<Found>) -> Seq<Option<CliValue>> {
    found.map_values(|f: Found| found_value(f))
}

/// Reads what was found for each of the arguments.
fn read_found(expected: &Vec<ExpectedArg>, m: &clap::ArgMatches) -> (r: Vec<Found>)
    ensures
        found_values(r@) == found_all(args::expected_views(expected@), match_values(*m)),
{
    let ghost views = args::expected_views(expected@);
    let mut found: Vec<Found> = Vec::new();
    let mut i: usize = 0;
    while i < expected.len()
        invariant
            i <= expected@.len(),
            i == found@.len(),
            views == args::expected_views(expected@),
            forall|j: int|
                0 <= j < i ==> found_value(#[trigger] found@[j]) == found_for(
                    views[j],
                    match_values(*m),
                ),
        decreases expected@.len() - i,
    {
        let e = &expected[i];
        assert(views[i as int] == e@);
        let f = match e.ty {
            ArgTy::Bool => match flag_value(m, e.name.as_str()) {
                Some(b) => Found::Flag(b),
                None => Found::Nothing,
            },
            _ => match option_value(m, e.name.as_str()) {
                Some(t) => Found::Text(t),
                None => Found::Nothing,
            },
        };
        found.push(f);
        i = i + 1;
    }
    assert(found_values(found@) =~= found_all(views, match_values(*m)));
    found
}

/// Collects the arguments as text, by name, from what was found for each.
pub fn collect_args(expected: &Vec<ExpectedArg>, found: Vec<Found>) -> (r: FxHashMap<
    String,
    String,
>)
    requires
        expected@.len() == found@.len(),
    ensures
        maps::text_map(r) == collected(args::expected_views(expected@), found_values(found@)),
{
    let ghost views = args::expected_views(expected@);
    let ghost values = found_values(found@);
    let mut m = new_text_map();
    let mut i: usize = 0;
    assert(maps::text_map(m) =~= Map::<Seq<char>, Seq<char>>::empty());
    while i < expected.len()
        invariant
            i <= expected@.len(),
            expected@.len() == found@.len(),
            views == args::expected_views(expected@),
            values == found_values(found@),
            maps::text_map(m) == collected(views.take(i as int), values.take(i as int)),
        decreases expected@.len() - i,
    {
        proof {
            assert(views.take(i + 1).drop_last() =~= views.take(i as int));
            assert(values.take(i + 1).drop_last() =~= values.take(i as int));
            assert(views.take(i + 1).last() == expected@[i as int]@);
            assert(values.take(i + 1).last() == found_value(found@[i as int]));
        }
        let name = expected[i].name.clone();
        match &found[i] {
            Found::Flag(b) => {
                let t = if *b {
                    "true".to_owned()
                } else {
                    "false".to_owned()
                };
                insert_text(&mut m, name, t);
            },
            Found::Text(t) => {
                insert_text(&mut m, name, t.clone());
            },
            Found::Nothing => {},
        }
        i = i + 1;
    }
    assert(views.take(i as int) =~= views);
    assert(values.take(i as int) =~= values);
    m
}

/// Finds the first flag of a script that has no value.
fn find_unset_flag(expected: &Vec<ExpectedArg>, found: &Vec<Found>) -> (r: Option<String>)
    requires
        expected@.len() == found@.len(),
    ensures
        r is Some == unset_flag(args::expected_views(expected@), found_values(found@)) is Some,
        r matches Some(name) ==> unset_flag(args::expected_views(expected@), found_values(found@))
            == Some(name@),
{
    let ghost views = args::expected_views(expected@);
    let ghost values = found_values(found@);
    let mut unset: Option<String> = None;
    let mut i: usize = 0;
    while i < expected.len()
        invariant
            i <= expected@.len(),
            expected@.len() == found@.len(),
            views == args::expected_views(expected@),
            values == found_values(found@),
            unset is Some == unset_flag(views.take(i as int), values.take(i as int)) is Some,
            unset matches Some(name) ==> unset_flag(views.take(i as int), values.take(i as int))
                == Some(name@),
        decreases expected@.len() - i,
    {
        proof {
            assert(views.take(i + 1).drop_last() =~= views.take(i as int));
            assert(values.take(i + 1).drop_last() =~= values.take(i as int));
            assert(views.take(i + 1).last() == expected@[i as int]@);
            assert(values.take(i + 1).last() == found_value(found@[i as int]));
        }
        if unset.is_none() {
            match (&expected[i].ty, &found[i]) {
                (ArgTy::Bool, Found::Nothing) => {
                    unset = Some(expected[i].name.clone());
                },
                _ => {},
            }
        }
        i = i + 1;
    }
    assert(views.take(i as int) =~= views);
    assert(values.take(i as int) =~= values);
    unset
}

/// Why a command line gives no arguments.
pub enum CliError {
    /// Clap was asked for help, which this is.
    Stopped(String),
    /// Clap has left a flag without a value.
    Unset(String),
}

/// Parses the command line of a script that asks for arguments.
pub fn parse_script_args(
    script_path: &str,
    expected: &Vec<ExpectedArg>,
    line: &Vec<String>,
) -> (r: Result<FxHashMap<String, String>, CliError>)
    requires
        acceptable(args::expected_views(expected@)),
    ensures
        match cli_outcome(declarations(args::expected_views(expected@)), text::texts(line@)) {
            None => r matches Err(CliError::Stopped(help)) && help@ == cli_help(
                script_path@,
                declarations(args::expected_views(expected@)),
                text::texts(line@),
            ),
            Some(values) => {
                let views = args::expected_views(expected@);
                let found = found_all(views, values);
                match unset_flag(views, found) {
                    Some(name) => r matches Err(CliError::Unset(n)) && n@ == name,
                    None => r matches Ok(m) && maps::text_map(m) == collected(views, found),
                }
            },
        },
        line@.len() == 0 ==> cli_outcome(
            declarations(args::expected_views(expected@)),
            text::texts(line@),
        ) == Some(cli_defaults(declarations(args::expected_views(expected@)))),
{
    proof {
        lemma_acceptable_is_declarable(args::expected_views(expected@));
    }
    let c = declare_all(script_path, expected);
    match parse_line(c, line) {
        Ok(m) => {
            let found = read_found(expected, &m);
            proof {
                assert(found_values(found@).len() == args::expected_views(expected@).len());
            }
            match find_unset_flag(expected, &found) {
                Some(name) => Err(CliError::Unset(name)),
                None => Ok(collect_args(expected, found)),
            }
        },
        Err(e) => Err(CliError::Stopped(e)),
    }
}

/// Arguments that can be declared keep what clap asks of their names.
proof fn lemma_acceptable_is_declarable(expected: Seq<ExpectedView>)
    requires
        acceptable(expected),
    ensures
        declarable(declarations(expected)),
{
    lemma_declarations(expected);
    let declared = declarations(expected);
    assert forall|k: int| 0 <= k < declared.len() implies (#[trigger] declared[k]).name != "help"@
        && !(declared[k].name.len() > 0 && declared[k].name[0] == '-') by {
        let i = choose|i: int|
            0 <= i < expected.len() && (#[trigger] expected[i]).name == declared[k].name;
        assert(nameable(expected[i]));
    }
}

/// Whether the same is found for an argument each time that it is asked for.
pub open spec fn agree(expected: Seq<ExpectedView>, found: Seq<Option<CliValue>>) -> bool {
    forall|i: int, j: int|
        0 <= i < expected.len() && 0 <= j < expected.len() && (#[trigger] expected[i]).name == (
        #[trigger] expected[j]).name ==> found[i] == found[j]
}

/// The text that is collected for an argument.
pub open spec fn value_text(v: Option<CliValue>) -> Option<Seq<char>> {
    match v {
        Some(CliValue::Flag(b)) => Some(flag_text(b)),
        Some(CliValue::Text(t)) => Some(t),
        None => None,
    }
}

/// Arguments keep apart by their names: under the name of each stands the text that was found
/// for it, and there is nothing else.
pub proof fn law_collected_by_name(expected: Seq<ExpectedView>, found: Seq<Option<CliValue>>)
    requires
        expected.len() == found.len(),
        agree(expected, found),
    ensures
        forall|i: int|
            0 <= i < expected.len() ==> collected(expected, found).get(
                (#[trigger] expected[i]).name,
            ) == value_text(found[i]),
        forall|name: Seq<char>| #[trigger]
            collected(expected, found).contains_key(name) ==> exists|i: int|
                0 <= i < expected.len() && (#[trigger] expected[i]).name == name,
    decreases expected.len(),
{
    if expected.len() > 0 {
        let e = expected.drop_last();
        let f = found.drop_last();
        let n = e.len() as int;
        assert forall|i: int, j: int|
            0 <= i < e.len() && 0 <= j < e.len() && (#[trigger] e[i]).name == (
            #[trigger] e[j]).name implies f[i] == f[j] by {
            assert(expected[i] == e[i] && expected[j] == e[j]);
        }
        law_collected_by_name(e, f);
        assert(expected[n] == expected.last());
        assert(found[n] == found.last());
        assert forall|i: int| 0 <= i < expected.len() implies collected(expected, found).get(
            (#[trigger] expected[i]).name,
        ) == value_text(found[i]) by {
            if i < n {
                assert(e[i] == expected[i]);
                assert(f[i] == found[i]);
            } else if collected(e, f).contains_key(expected[n].name) {
                let j = choose|j: int|
                    0 <= j < e.len() && (#[trigger] e[j]).name == expected[n].name;
                assert(expected[j].name == expected[n].name);
                assert(f[j] == found[j]);
            }
        }
        assert forall|name: Seq<char>| #[trigger]
            collected(expected, found).contains_key(name) implies exists|i: int|
            0 <= i < expected.len() && (#[trigger] expected[i]).name == name by {
            if collected(e, f).contains_key(name) {
                let i = choose|i: int| 0 <= i < e.len() && (#[trigger] e[i]).name == name;
                assert(expected[i].name == name);
            } else {
                assert(expected[n].name == name);
            }
        }
    }
}

/// The default of each of some declared arguments with different names.
proof fn lemma_defaults_by_name(declared: Seq<CliArg>)
    requires
        forall|i: int, j: int|
            0 <= i < j < declared.len() ==> (#[trigger] declared[i]).name != (
            #[trigger] declared[j]).name,
    ensures
        forall|i: int|
            0 <= i < declared.len() ==> cli_defaults(declared).get((#[trigger] declared[i]).name)
                == if declared[i].flag {
                Some(CliValue::Flag(false))
            } else {
                match declared[i].default_value {
                    Some(t) => Some(CliValue::Text(t)),
                    None => None,
                }
            },
        forall|name: Seq<char>| #[trigger]
            cli_defaults(declared).contains_key(name) ==> exists|i: int|
                0 <= i < declared.len() && (#[trigger] declared[i]).name == name,
    decreases declared.len(),
{
    if declared.len() > 0 {
        let d = declared.drop_last();
        assert forall|i: int, j: int| 0 <= i < j < d.len() implies (#[trigger] d[i]).name != (
        #[trigger] d[j]).name by {
            assert(declared[i].name != declared[j].name);
        }
        lemma_defaults_by_name(d);
        let n = d.len() as int;
        if cli_defaults(d).contains_key(declared.last().name) {
            let i = choose|i: int| 0 <= i < d.len() && (#[trigger] d[i]).name
                == declared.last().name;
            assert(declared[i].name != declared[n].name);
        }
        assert forall|i: int| 0 <= i < declared.len() implies cli_defaults(declared).get(
            (#[trigger] declared[i]).name,
        ) == if declared[i].flag {
            Some(CliValue::Flag(false))
        } else {
            match declared[i].default_value {
                Some(t) => Some(CliValue::Text(t)),
                None => None,
            }
        } by {
            if i < n {
                assert(d[i] == declared[i]);
                assert(declared[i].name != declared[n].name);
            }
        }
        assert forall|name: Seq<char>| #[trigger]
            cli_defaults(declared).contains_key(name) implies exists|i: int|
            0 <= i < declared.len() && (#[trigger] declared[i]).name == name by {
            if cli_defaults(d).contains_key(name) {
                let i = choose|i: int| 0 <= i < d.len() && (#[trigger] d[i]).name == name;
                assert(declared[i].name == name);
            } else {
                assert(declared[n].name == name);
            }
        }
    }
}

/// Where every flag has a value, none is unset.
proof fn lemma_no_unset_flag(expected: Seq<ExpectedView>, found: Seq<Option<CliValue>>)
    requires
        expected.len() == found.len(),
        forall|i: int|
            0 <= i < expected.len() && (#[trigger] expected[i]).ty == ArgTy::Bool
                ==> found[i] is Some,
    ensures
        unset_flag(expected, found) is None,
    decreases expected.len(),
{
    if expected.len() > 0 {
        let e = expected.drop_last();
        let f = found.drop_last();
        assert forall|i: int| 0 <= i < e.len() && (#[trigger] e[i]).ty == ArgTy::Bool implies f[i]
            is Some by {
            assert(expected[i].ty == ArgTy::Bool);
        }
        lemma_no_unset_flag(e, f);
        assert(expected[expected.len() - 1] == expected.last());
    }
}

/// Without a command line, each argument of a script has its default: a flag is false, an
/// option with a default is the text that shows the first one given for it, and an option
/// without one is absent.
pub proof fn law_empty_line_gives_defaults(expected: Seq<ExpectedView>, i: int)
    requires
        acceptable(expected),
        0 <= i < expected.len(),
    ensures
        ({
            let found = found_all(expected, cli_defaults(declarations(expected)));
            &&& unset_flag(expected, found) is None
            &&& collected(expected, found).get(expected[i].name) == if expected[i].ty
                == ArgTy::Bool {
                Some("false"@)
            } else {
                first_default(expected, expected[i].name)
            }
        }),
{
    let declared = declarations(expected);
    let values = cli_defaults(declared);
    let found = found_all(expected, values);
    lemma_declarations(expected);
    lemma_defaults_by_name(declared);
    assert forall|k: int| 0 <= k < expected.len() implies #[trigger] found[k] == if expected[k].ty
        == ArgTy::Bool {
        Some(CliValue::Flag(false))
    } else {
        match first_default(expected, expected[k].name) {
            Some(t) => Some(CliValue::Text(t)),
            None => None,
        }
    } by {
        lemma_place(declared, expected[k].name);
        let p = place(declared, expected[k].name).unwrap();
        assert(declared[p].name == expected[k].name);
        assert(found[k] == found_for(expected[k], values));
    }
    assert forall|k: int| 0 <= k < expected.len() && (#[trigger] expected[k]).ty
        == ArgTy::Bool implies found[k] is Some by {}
    lemma_no_unset_flag(expected, found);
    assert forall|k: int, j: int|
        0 <= k < expected.len() && 0 <= j < expected.len() && (#[trigger] expected[k]).name == (
        #[trigger] expected[j]).name implies found[k] == found[j] by {
        assert(compatible(expected[k], expected[j]));
    }
    law_collected_by_name(expected, found);
    assert(collected(expected, found).get(expected[i].name) == value_text(found[i]));
}

/// A name that is turned around differs, and turned around again it is as it was. A name with
/// `no-` twice before it is left out: turned around it still begins with `no-`.
pub proof fn law_negated_twice(name: Seq<char>)
    requires
        starts_with_no(name) ==> !starts_with_no(name.skip(3)),
    ensures
        negated(negated(name)) == name,
        negated(name) != name,
{
    reveal_strlit("no-");
    if starts_with_no(name) {
        assert("no-"@ + name.skip(3) =~= name);
        assert(negated(name).len() == name.len() - 3);
    } else {
        assert(("no-"@ + name).skip(3) =~= name);
        assert(negated(name).len() == name.len() + 3);
    }
}

/// Whether an argument is the first with its name that has a default.
pub open spec fn has_first_default(expected: Seq<ExpectedView>, k: int) -> bool {
    &&& 0 <= k < expected.len()
    &&& expected[k].default_value is Some
    &&& forall|j: int|
        0 <= j < k && (#[trigger] expected[j]).name == expected[k].name
            ==> expected[j].default_value is None
}

/// Whether no argument with a name has a default.
pub open spec fn has_no_default(expected: Seq<ExpectedView>, name: Seq<char>) -> bool {
    forall|j: int|
        0 <= j < expected.len() && (#[trigger] expected[j]).name == name
            ==> expected[j].default_value is None
}

/// The first default for an argument that is not a flag is shown by its text.
proof fn lemma_first_default(expected: Seq<ExpectedView>, k: int)
    requires
        has_first_default(expected, k),
        forall|j: int|
            0 <= j < expected.len() && (#[trigger] expected[j]).name == expected[k].name
                ==> expected[j].ty != ArgTy::Bool,
    ensures
        first_default(expected, expected[k].name) == Some(
            args::shown(expected[k].default_value.unwrap()),
        ),
    decreases expected.len(),
{
    let less = expected.drop_last();
    let n = less.len() as int;
    let name = expected[k].name;
    if k < n {
        assert(less[k] == expected[k]);
        assert(has_first_default(less, k)) by {
            assert forall|j: int| 0 <= j < k && (#[trigger] less[j]).name
                == less[k].name implies less[j].default_value is None by {
                assert(less[j] == expected[j]);
            }
        }
        assert forall|j: int| 0 <= j < less.len() && (#[trigger] less[j]).name
            == less[k].name implies less[j].ty != ArgTy::Bool by {
            assert(less[j] == expected[j]);
        }
        lemma_first_default(less, k);
    } else {
        assert(has_no_default(less, name)) by {
            assert forall|j: int| 0 <= j < less.len() && (#[trigger] less[j]).name
                == name implies less[j].default_value is None by {
                assert(less[j] == expected[j]);
            }
        }
        lemma_no_default(less, name);
        assert(expected[k].ty != ArgTy::Bool);
    }
}

/// Without a default, there is no first one.
proof fn lemma_no_default(expected: Seq<ExpectedView>, name: Seq<char>)
    requires
        has_no_default(expected, name),
    ensures
        first_default(expected, name) is None,
    decreases expected.len(),
{
    if expected.len() > 0 {
        let less = expected.drop_last();
        assert(has_no_default(less, name)) by {
            assert forall|j: int| 0 <= j < less.len() && (#[trigger] less[j]).name
                == name implies less[j].default_value is None by {
                assert(less[j] == expected[j]);
            }
        }
        lemma_no_default(less, name);
        assert(expected[expected.len() - 1] == expected.last());
    }
}

/// Without a command line, a flag is `false`, an option is exactly the text that shows the first
/// default that the script gives for it, and an option for which it gives none is absent. Nothing
/// else is collected.
pub proof fn law_empty_line_passes_the_defaults_on(
    script_path: &str,
    expected: Vec<ExpectedArg>,
    line: Vec<String>,
    r: Result<FxHashMap<String, String>, CliError>,
)
    requires
        acceptable(args::expected_views(expected@)),
        line@.len() == 0,
        call_ensures(parse_script_args, (script_path, &expected, &line), r),
    ensures
        r matches Ok(m) && {
            let views = args::expected_views(expected@);
            &&& forall|i: int|
                0 <= i < views.len() && (#[trigger] views[i]).ty == ArgTy::Bool ==> maps::text_map(
                    m,
                ).get(views[i].name) == Some("false"@)
            &&& forall|k: int| #[trigger]
                has_first_default(views, k) && views[k].ty != ArgTy::Bool ==> maps::text_map(m).get(
                    views[k].name,
                ) == Some(args::shown(views[k].default_value.unwrap()))
            &&& forall|i: int|
                0 <= i < views.len() && (#[trigger] views[i]).ty != ArgTy::Bool && has_no_default(
                    views,
                    views[i].name,
                ) ==> !maps::text_map(m).contains_key(views[i].name)
            &&& forall|name: Seq<char>| #[trigger]
                maps::text_map(m).contains_key(name) ==> exists|i: int|
                    0 <= i < views.len() && (#[trigger] views[i]).name == name
        },
{
    let views = args::expected_views(expected@);
    let found = found_all(views, cli_defaults(declarations(views)));
    lemma_nothing_unset(views);
    if let Ok(m) = r {
        let got = maps::text_map(m);
        assert(got == collected(views, found));
        assert forall|i: int| 0 <= i < views.len() && (#[trigger] views[i]).ty
            == ArgTy::Bool implies got.get(views[i].name) == Some("false"@) by {
            law_empty_line_gives_defaults(views, i);
        }
        assert forall|k: int| #[trigger]
            has_first_default(views, k) && views[k].ty != ArgTy::Bool implies got.get(views[k].name)
            == Some(args::shown(views[k].default_value.unwrap())) by {
            law_empty_line_gives_defaults(views, k);
            assert forall|j: int| 0 <= j < views.len() && (#[trigger] views[j]).name
                == views[k].name implies views[j].ty != ArgTy::Bool by {
                assert(compatible(views[j], views[k]));
            }
            lemma_first_default(views, k);
        }
        assert forall|i: int|
            0 <= i < views.len() && (#[trigger] views[i]).ty != ArgTy::Bool && has_no_default(
                views,
                views[i].name,
            ) implies !got.contains_key(views[i].name) by {
            law_empty_line_gives_defaults(views, i);
            lemma_no_default(views, views[i].name);
        }
        assert forall|name: Seq<char>| #[trigger] got.contains_key(name) implies exists|i: int|
            0 <= i < views.len() && (#[trigger] views[i]).name == name by {
            lemma_collected_names(views, found, name);
        }
    }
}

/// Without a command line, no flag is unset.
proof fn lemma_nothing_unset(expected: Seq<ExpectedView>)
    requires
        acceptable(expected),
    ensures
        unset_flag(expected, found_all(expected, cli_defaults(declarations(expected)))) is None,
{
    if expected.len() > 0 {
        law_empty_line_gives_defaults(expected, 0);
    }
}

/// Only what is asked for is collected.
proof fn lemma_collected_names(
    expected: Seq<ExpectedView>,
    found: Seq<Option<CliValue>>,
    name: Seq<char>,
)
    requires
        expected.len() == found.len(),
        collected(expected, found).contains_key(name),
    ensures
        exists|i: int| 0 <= i < expected.len() && (#[trigger] expected[i]).name == name,
    decreases expected.len(),
{
    let less = expected.drop_last();
    let n = less.len() as int;
    if expected[n].name != name {
        lemma_collected_names(less, found.drop_last(), name);
        let i = choose|i: int| 0 <= i < less.len() && (#[trigger] less[i]).name == name;
        assert(expected[i].name == name);
    }
}

/// What clap finds on the command line is passed on: under the name of each option the text found
/// for it, unchanged, and under the name of each flag `true` or `false` as it was found. An option
/// for which nothing is found is absent.
pub proof fn law_what_is_found_is_passed_on(
    script_path: &str,
    expected: Vec<ExpectedArg>,
    line: Vec<String>,
    values: Map<Seq<char>, CliValue>,
    m: FxHashMap<String, String>,
    i: int,
)
    requires
        acceptable(args::expected_views(expected@)),
        cli_outcome(declarations(args::expected_views(expected@)), text::texts(line@)) == Some(
            values,
        ),
        call_ensures(
            parse_script_args,
            (script_path, &expected, &line),
            Ok::<FxHashMap<String, String>, CliError>(m),
        ),
        0 <= i < expected@.len(),
    ensures
        expected@[i].ty == ArgTy::Bool ==> {
            &&& values.get(expected@[i].name@) matches Some(CliValue::Flag(b))
            &&& maps::text_map(m).get(expected@[i].name@) == Some(
                if b {
                    "true"@
                } else {
                    "false"@
                },
            )
        },
        expected@[i].ty != ArgTy::Bool ==> maps::text_map(m).get(expected@[i].name@)
            == match values.get(expected@[i].name@) {
            Some(CliValue::Text(t)) => Some(t),
            _ => None,
        },
{
    let views = args::expected_views(expected@);
    assert(views[i] == expected@[i]@);
    lemma_unset_flag(views, values);
    assert forall|j: int| 0 <= j < views.len() && (#[trigger] views[j]).name
        == views[i].name implies (views[j].ty == ArgTy::Bool) == (views[i].ty == ArgTy::Bool) by {
        assert(compatible(views[j], views[i]));
    }
    lemma_collected_for(views, values, i);
}

/// Where clap is asked for help, its text is the error. Otherwise the arguments are collected
/// unless clap has left a flag without a value, and none is collected that the script does not ask
/// for.
pub proof fn law_only_what_is_asked_for_is_passed_on(
    script_path: &str,
    expected: Vec<ExpectedArg>,
    line: Vec<String>,
    r: Result<FxHashMap<String, String>, CliError>,
)
    requires
        call_ensures(parse_script_args, (script_path, &expected, &line), r),
    ensures
        match cli_outcome(declarations(args::expected_views(expected@)), text::texts(line@)) {
            None => r matches Err(CliError::Stopped(help)) && help@ == cli_help(
                script_path@,
                declarations(args::expected_views(expected@)),
                text::texts(line@),
            ),
            Some(values) => {
                &&& r is Ok == (forall|i: int|
                    0 <= i < args::expected_views(expected@).len() && (
                    #[trigger] args::expected_views(expected@)[i]).ty == ArgTy::Bool ==> values.get(
                        args::expected_views(expected@)[i].name,
                    ) matches Some(CliValue::Flag(_)))
                &&& r is Err ==> r->Err_0 is Unset
            },
        },
        r matches Ok(m) ==> forall|name: Seq<char>| #[trigger]
            maps::text_map(m).contains_key(name) ==> exists|i: int|
                0 <= i < expected@.len() && (#[trigger] expected@[i]).name@ == name,
{
    let views = args::expected_views(expected@);
    if let Some(values) = cli_outcome(declarations(views), text::texts(line@)) {
        lemma_unset_flag(views, values);
        if let Ok(m) = r {
            assert forall|name: Seq<char>| #[trigger]
                maps::text_map(m).contains_key(name) implies exists|i: int|
                0 <= i < expected@.len() && (#[trigger] expected@[i]).name@ == name by {
                lemma_collected_names(views, found_all(views, values), name);
                let i = choose|i: int| 0 <= i < views.len() && (#[trigger] views[i]).name == name;
                assert(expected@[i].name@ == name);
            }
        }
    }
}

/// What is collected for an argument that is always a flag, or never.
proof fn lemma_collected_for(
    expected: Seq<ExpectedView>,
    values: Map<Seq<char>, CliValue>,
    i: int,
)
    requires
        0 <= i < expected.len(),
        forall|j: int|
            0 <= j < expected.len() && (#[trigger] expected[j]).name == expected[i].name
                ==> (expected[j].ty == ArgTy::Bool) == (expected[i].ty == ArgTy::Bool),
    ensures
        collected(expected, found_all(expected, values)).get(expected[i].name) == value_text(
            found_for(expected[i], values),
        ),
    decreases expected.len(),
{
    let less = expected.drop_last();
    let n = less.len() as int;
    let found = found_all(expected, values);
    assert(found.drop_last() =~= found_all(less, values));
    assert(found.last() == found_for(expected[n], values));
    assert forall|j: int| 0 <= j < less.len() && (#[trigger] less[j]).name
        == expected[i].name implies (less[j].ty == ArgTy::Bool) == (expected[i].ty
        == ArgTy::Bool) by {
        assert(less[j] == expected[j]);
    }
    if i < n {
        assert(less[i] == expected[i]);
        lemma_collected_for(less, values, i);
    } else if collected(less, found.drop_last()).contains_key(expected[n].name) {
        lemma_collected_names(less, found.drop_last(), expected[n].name);
        let j = choose|j: int| 0 <= j < less.len() && (#[trigger] less[j]).name
            == expected[n].name;
        assert(less[j] == expected[j]);
        assert forall|k: int| 0 <= k < less.len() && (#[trigger] less[k]).name
            == less[j].name implies (less[k].ty == ArgTy::Bool) == (less[j].ty == ArgTy::Bool) by {}
        lemma_collected_for(less, values, j);
    }
}

/// A flag is unset where clap has no flag under its name.
proof fn lemma_unset_flag(expected: Seq<ExpectedView>, values: Map<Seq<char>, CliValue>)
    ensures
        unset_flag(expected, found_all(expected, values)) is None == (forall|i: int|
            0 <= i < expected.len() && (#[trigger] expected[i]).ty == ArgTy::Bool ==> values.get(
                expected[i].name,
            ) matches Some(CliValue::Flag(_))),
    decreases expected.len(),
{
    if expected.len() > 0 {
        let less = expected.drop_last();
        let n = less.len() as int;
        let found = found_all(expected, values);
        assert(found.drop_last() =~= found_all(less, values));
        assert(found.last() == found_for(expected[n], values));
        lemma_unset_flag(less, values);
        assert(expected[n] == expected.last());
        if unset_flag(expected, found) is None {
            assert forall|i: int| 0 <= i < expected.len() && (#[trigger] expected[i]).ty
                == ArgTy::Bool implies values.get(expected[i].name) matches Some(
                CliValue::Flag(_),
            ) by {
                if i < n {
                    assert(less[i] == expected[i]);
                }
            }
        }
        if forall|i: int|
            0 <= i < expected.len() && (#[trigger] expected[i]).ty == ArgTy::Bool ==> values.get(
                expected[i].name,
            ) matches Some(CliValue::Flag(_)) {
            assert forall|i: int| 0 <= i < less.len() && (#[trigger] less[i]).ty
                == ArgTy::Bool implies values.get(less[i].name) matches Some(
                CliValue::Flag(_),
            ) by {
                assert(less[i] == expected[i]);
            }
        }
    }
}

/// Every argument that a script asks for is declared to clap once, under its name, as a flag where
/// it is true or false and as an option otherwise, with the text that shows the first default given
/// for it. Nothing else is declared, and the order is that in which the script first asks.
pub proof fn law_declared_as_asked_for(expected: Seq<ExpectedView>)
    requires
        acceptable(expected),
    ensures
        ({
            let declared = declarations(expected);
            &&& forall|a: int, b: int|
                0 <= a < b < declared.len() ==> (#[trigger] declared[a]).name != (
                #[trigger] declared[b]).name
            &&& forall|i: int|
                0 <= i < expected.len() ==> exists|k: int|
                    0 <= k < declared.len() && (#[trigger] declared[k]).name == (
                    #[trigger] expected[i]).name
            &&& forall|k: int|
                0 <= k < declared.len() ==> exists|i: int|
                    0 <= i < expected.len() && (#[trigger] expected[i]).name == (
                    #[trigger] declared[k]).name
            &&& forall|k: int, i: int|
                0 <= k < declared.len() && 0 <= i < expected.len() && (
                #[trigger] expected[i]).name == (#[trigger] declared[k]).name ==> declared[k].flag
                    == (expected[i].ty == ArgTy::Bool)
            &&& forall|k: int, i: int|
                0 <= k < declared.len() && #[trigger] has_first_default(expected, i)
                    && expected[i].name == (#[trigger] declared[k]).name && expected[i].ty
                    != ArgTy::Bool ==> declared[k].default_value == Some(
                    args::shown(expected[i].default_value.unwrap()),
                )
            &&& forall|k: int|
                0 <= k < declared.len() && has_no_default(
                    expected,
                    (#[trigger] declared[k]).name,
                ) ==> declared[k].default_value is None
        }),
{
    lemma_declarations(expected);
    let declared = declarations(expected);
    assert forall|i: int| 0 <= i < expected.len() implies exists|k: int|
        0 <= k < declared.len() && (#[trigger] declared[k]).name == (
        #[trigger] expected[i]).name by {
        lemma_place(declared, expected[i].name);
        let k = place(declared, expected[i].name).unwrap();
        assert(declared[k].name == expected[i].name);
    }
    assert forall|k: int, i: int|
        0 <= k < declared.len() && #[trigger] has_first_default(expected, i) && expected[i].name
            == (#[trigger] declared[k]).name && expected[i].ty
            != ArgTy::Bool implies declared[k].default_value == Some(
        args::shown(expected[i].default_value.unwrap()),
    ) by {
        assert forall|j: int| 0 <= j < expected.len() && (#[trigger] expected[j]).name
            == expected[i].name implies expected[j].ty != ArgTy::Bool by {
            assert(compatible(expected[j], expected[i]));
        }
        lemma_first_default(expected, i);
    }
    assert forall|k: int| 0 <= k < declared.len() && has_no_default(
        expected,
        (#[trigger] declared[k]).name,
    ) implies declared[k].default_value is None by {
        lemma_no_default(expected, declared[k].name);
    }
}

/// Arguments are declared in the order in which the script first asks for them: before it asks for
/// one, it has asked for all that are declared before that one.
pub proof fn law_declared_in_the_order_of_asking(expected: Seq<ExpectedView>, a: int, b: int, i: int)
    requires
        acceptable(expected),
        0 <= a < b < declarations(expected).len(),
        0 <= i < expected.len(),
        expected[i].name == declarations(expected)[b].name,
    ensures
        exists|j: int|
            0 <= j < i && (#[trigger] expected[j]).name == declarations(expected)[a].name,
    decreases expected.len(),
{
    let less = expected.drop_last();
    let n = less.len() as int;
    assert forall|k: int| 0 <= k < less.len() implies nameable(#[trigger] less[k]) by {
        assert(less[k] == expected[k]);
    }
    assert forall|k: int, l: int| 0 <= k < less.len() && 0 <= l < less.len() implies compatible(
        #[trigger] less[k],
        #[trigger] less[l],
    ) by {
        assert(less[k] == expected[k] && less[l] == expected[l]);
    }
    let before = declarations(less);
    let after = declarations(expected);
    lemma_declarations(less);
    lemma_declarations(expected);
    lemma_place(before, expected[n].name);
    assert(before[a].name == after[a].name);
    if i < n {
        assert(less[i] == expected[i]);
        if b < before.len() {
            assert(before[b].name == after[b].name);
        } else {
            lemma_place(before, less[i].name);
            let k = place(before, less[i].name).unwrap();
            assert(after[k].name == after[b].name);
            assert(false);
        }
        law_declared_in_the_order_of_asking(less, a, b, i);
        let j = choose|j: int| 0 <= j < i && (#[trigger] less[j]).name == before[a].name;
        assert(expected[j].name == after[a].name);
    } else {
        let j = choose|j: int| 0 <= j < less.len() && (#[trigger] less[j]).name == before[a].name;
        assert(expected[j].name == after[a].name);
    }
}

/// Arguments with ordinary names can be declared: names that are not `help` and begin neither with
/// a hyphen nor with `no-`, each always of a flag or never of one. The name `help`, a hyphen at the
/// beginning of a name, and a name that is once a flag and once an option are always refused.
pub proof fn law_which_arguments_can_be_declared(expected: Vec<ExpectedArg>, r: bool)
    requires
        call_ensures(check_acceptable, (&expected,), r),
    ensures
        ({
            let views = args::expected_views(expected@);
            let plain = forall|i: int|
                0 <= i < views.len() ==> (#[trigger] views[i]).name != "help"@ && !(
                views[i].name.len() > 0 && views[i].name[0] == '-');
            let single = forall|i: int, j: int|
                0 <= i < views.len() && 0 <= j < views.len() && (#[trigger] views[i]).name == (
                #[trigger] views[j]).name ==> (views[i].ty == ArgTy::Bool) == (views[j].ty
                    == ArgTy::Bool);
            let no_negated = forall|i: int|
                0 <= i < views.len() ==> !("no-"@.is_prefix_of((#[trigger] views[i]).name));
            &&& plain && single && no_negated ==> r
            &&& r ==> plain && single
        }),
{
    let views = args::expected_views(expected@);
    reveal_strlit("no-");
    reveal_strlit("help");
    let no_negated = forall|i: int|
        0 <= i < views.len() ==> !("no-"@.is_prefix_of((#[trigger] views[i]).name));
    if no_negated {
        assert forall|i: int| 0 <= i < views.len() implies !starts_with_no(
            (#[trigger] views[i]).name,
        ) by {
            let name = views[i].name;
            if starts_with_no(name) {
                assert("no-"@ =~= name.subrange(0, 3));
                assert("no-"@.is_prefix_of(name));
            }
        }
        assert forall|i: int| 0 <= i < views.len() implies negated((#[trigger] views[i]).name)
            != "help"@ by {
            assert(negated(views[i].name)[0] == 'n');
        }
        assert forall|i: int, j: int|
            0 <= i < views.len() && 0 <= j < views.len() && views[i].name
                != views[j].name implies negated((#[trigger] views[i]).name) != negated(
            (#[trigger] views[j]).name,
        ) by {
            assert(negated(views[i].name).skip(3) =~= views[i].name);
            assert(negated(views[j].name).skip(3) =~= views[j].name);
        }
        assert forall|i: int, j: int| 0 <= i < views.len() && 0 <= j < views.len() implies negated(
            (#[trigger] views[i]).name,
        ) != (#[trigger] views[j]).name by {
            assert(starts_with_no(negated(views[i].name)));
        }
    }
    if r {
        assert forall|i: int, j: int|
            0 <= i < views.len() && 0 <= j < views.len() && (#[trigger] views[i]).name == (
            #[trigger] views[j]).name implies (views[i].ty == ArgTy::Bool) == (views[j].ty
            == ArgTy::Bool) by {
            assert(compatible(views[i], views[j]));
        }
    }
}

/// Where clap leaves a flag without a value, the error names the first such flag.
pub proof fn law_unset_flag_is_named(
    script_path: &str,
    expected: Vec<ExpectedArg>,
    line: Vec<String>,
    values: Map<Seq<char>, CliValue>,
    name: String,
)
    requires
        cli_outcome(declarations(args::expected_views(expected@)), text::texts(line@)) == Some(
            values,
        ),
        call_ensures(
            parse_script_args,
            (script_path, &expected, &line),
            Err::<FxHashMap<String, String>, CliError>(CliError::Unset(name)),
        ),
    ensures
        exists|i: int|
            0 <= i < expected@.len() && (#[trigger] expected@[i]).name@ == name@ && expected@[i].ty
                == ArgTy::Bool && !(values.get(name@) matches Some(CliValue::Flag(_))) && (forall|
                j: int,
            |
                0 <= j < i && (#[trigger] expected@[j]).ty == ArgTy::Bool ==> (values.get(
                    expected@[j].name@,
                ) matches Some(CliValue::Flag(_)))),
{
    let views = args::expected_views(expected@);
    let i = lemma_first_unset(views, values);
    assert(expected@[i]@ == views[i]);
    assert forall|j: int| 0 <= j < i && (#[trigger] expected@[j]).ty
        == ArgTy::Bool implies values.get(expected@[j].name@) matches Some(CliValue::Flag(_)) by {
        assert(expected@[j]@ == views[j]);
    }
}

/// The first flag without a value.
proof fn lemma_first_unset(expected: Seq<ExpectedView>, values: Map<Seq<char>, CliValue>) -> (i: int)
    requires
        unset_flag(expected, found_all(expected, values)) is Some,
    ensures
        0 <= i < expected.len(),
        unset_flag(expected, found_all(expected, values)) == Some(expected[i].name),
        expected[i].ty == ArgTy::Bool,
        !(values.get(expected[i].name) matches Some(CliValue::Flag(_))),
        forall|j: int|
            0 <= j < i && (#[trigger] expected[j]).ty == ArgTy::Bool ==> (values.get(
                expected[j].name,
            ) matches Some(CliValue::Flag(_))),
    decreases expected.len(),
{
    let less = expected.drop_last();
    let n = less.len() as int;
    let found = found_all(expected, values);
    assert(found.drop_last() =~= found_all(less, values));
    assert(found.last() == found_for(expected[n], values));
    if unset_flag(less, found_all(less, values)) is Some {
        let i = lemma_first_unset(less, values);
        assert(less[i] == expected[i]);
        assert forall|j: int| 0 <= j < i && (#[trigger] expected[j]).ty
            == ArgTy::Bool implies values.get(expected[j].name) matches Some(
            CliValue::Flag(_),
        ) by {
            assert(less[j] == expected[j]);
        }
        i
    } else {
        lemma_unset_flag(less, values);
        assert forall|j: int| 0 <= j < n && (#[trigger] expected[j]).ty
            == ArgTy::Bool implies values.get(expected[j].name) matches Some(
            CliValue::Flag(_),
        ) by {
            assert(less[j] == expected[j]);
        }
        n
    }
}

} // verus!
