//! From the name of a recorded signal to the type of the port that it
//! shows.

use crate::registry::{alias_models, module_models, Registry};
use crate::schema::{texts, BlockModel, PortModel, RawBlockDefinition, RawBlockPort};
use crate::scope::{get_current_module, resolve_module};
use crate::text::{chars_of, is_alnum, same_chars, upper, upper_equals};
use vstd::prelude::*;

verus! {

/// How a signal name reads.
#[derive(Debug, PartialEq, Eq)]
pub enum SignalNameFormat {
    /// The whole name is an instance; its representative port is meant.
    FullVar(String),
    /// The name ends in a port selector: this port of the instance is meant.
    PortedVar(String),
    Unknown,
}

/// Model of a `SignalNameFormat`.
pub ghost enum FormatModel {
    FullVar(Seq<char>),
    PortedVar(Seq<char>),
    Unknown,
}

impl View for SignalNameFormat {
    type V = FormatModel;

    open spec fn view(&self) -> FormatModel {
        match self {
            SignalNameFormat::FullVar(name) => FormatModel::FullVar(name@),
            SignalNameFormat::PortedVar(port) => FormatModel::PortedVar(port@),
            SignalNameFormat::Unknown => FormatModel::Unknown,
        }
    }
}

/// The port names that stand for their instance, highest priority first.
pub open spec fn preferred_ports() -> Seq<Seq<char>> {
    seq!["Q_OUT"@, "D_OUT"@, "Probe"@, "PROBE"@, "D_IN"@, "WGET"@, "WHAS"@]
}

/// The port names that never stand for their instance: clock, reset, enable
/// and queue control.
pub open spec fn ignored_ports() -> Seq<Seq<char>> {
    seq!["CLK"@, "RST"@, "EN"@, "CLR"@, "FULL_N"@, "EMPTY_N"@, "ENQ"@, "DEQ"@]
}

/// The preferred port name of priority `k`.
fn preferred_port(k: usize) -> (name: &'static str)
    requires
        k < 7,
    ensures
        name@ == preferred_ports()[k as int],
{
    if k == 0 {
        "Q_OUT"
    } else if k == 1 {
        "D_OUT"
    } else if k == 2 {
        "Probe"
    } else if k == 3 {
        "PROBE"
    } else if k == 4 {
        "D_IN"
    } else if k == 5 {
        "WGET"
    } else {
        "WHAS"
    }
}

/// The ignored port name of index `k`.
fn ignored_port(k: usize) -> (name: &'static str)
    requires
        k < 8,
    ensures
        name@ == ignored_ports()[k as int],
{
    if k == 0 {
        "CLK"
    } else if k == 1 {
        "RST"
    } else if k == 2 {
        "EN"
    } else if k == 3 {
        "CLR"
    } else if k == 4 {
        "FULL_N"
    } else if k == 5 {
        "EMPTY_N"
    } else if k == 6 {
        "ENQ"
    } else {
        "DEQ"
    }
}

/// Whether `port`, in capitals, is a preferred port name.
pub fn is_preferred(port: &[char]) -> (yes: bool)
    ensures
        yes == preferred_ports().contains(upper(port@)),
{
    let mut k: usize = 0;
    while k < 7
        invariant
            k <= 7,
            preferred_ports().len() == 7,
            forall|j: int| 0 <= j < k ==> preferred_ports()[j] != upper(port@),
        decreases 7 - k,
    {
        let wanted = chars_of(preferred_port(k));
        if upper_equals(port, wanted.as_slice()) {
            assert(preferred_ports()[k as int] == upper(port@));
            return true;
        }
        k += 1;
    }
    false
}

/// Whether `name` is an ignored port name.
pub fn is_ignored(name: &[char]) -> (yes: bool)
    ensures
        yes == ignored_ports().contains(name@),
{
    let mut k: usize = 0;
    while k < 8
        invariant
            k <= 8,
            ignored_ports().len() == 8,
            forall|j: int| 0 <= j < k ==> ignored_ports()[j] != name@,
        decreases 8 - k,
    {
        let unwanted = chars_of(ignored_port(k));
        if same_chars(name, unwanted.as_slice()) {
            assert(ignored_ports()[k as int] == name@);
            return true;
        }
        k += 1;
    }
    false
}

/// A letter, a digit or `'_'`: what an instance name is made of.
pub open spec fn is_word_char(c: char) -> bool {
    is_alnum(c) || c == '_'
}

/// `'_'` or `'$'`: what parts an instance from a port selector.
pub open spec fn is_separator(c: char) -> bool {
    c == '_' || c == '$'
}

/// Whether `name` reads as an instance, the separator at index `i`, and a
/// port selector: the instance is not empty and made of word characters, the
/// selector is not empty and made of letters and digits.
pub open spec fn splits_at(name: Seq<char>, i: int) -> bool {
    &&& 0 < i < name.len() - 1
    &&& is_separator(name[i])
    &&& forall|j: int| 0 <= j < i ==> is_word_char(#[trigger] name[j])
    &&& forall|j: int| i < j < name.len() ==> is_alnum(#[trigger] name[j])
}

/// A name splits at one place at most: at its last separator.
pub proof fn lemma_split_unique(name: Seq<char>, i: int, j: int)
    requires
        splits_at(name, i),
        splits_at(name, j),
    ensures
        i == j,
{
    if i < j {
        assert(is_alnum(name[j]));
    }
    if j < i {
        assert(is_alnum(name[i]));
    }
}

/// Whether `name` ends in the selector of a preferred port.
pub open spec fn selects_port(name: Seq<char>) -> bool {
    exists|i: int| splits_at(name, i) && preferred_ports().contains(upper(#[trigger] name.skip(i + 1)))
}

/// How the signal name `name` reads. A name that splits, at its last `'_'`
/// or `'$'`, into an instance and a selector that is a preferred port name
/// in any mix of capitals and small letters, means that port of that
/// instance. Every other name is an instance as a whole.
pub open spec fn signal_reading(name: Seq<char>) -> (Seq<char>, FormatModel) {
    if selects_port(name) {
        let i = choose|i: int|
            splits_at(name, i) && preferred_ports().contains(upper(#[trigger] name.skip(i + 1)));
        (name.take(i), FormatModel::PortedVar(name.skip(i + 1)))
    } else {
        (name, FormatModel::FullVar(name))
    }
}

/// How a name that splits at the index `at` reads: by its selector alone.
pub proof fn lemma_reading_of_split(name: Seq<char>, at: int)
    requires
        splits_at(name, at),
    ensures
        signal_reading(name) == if preferred_ports().contains(upper(name.skip(at + 1))) {
            (name.take(at), FormatModel::PortedVar(name.skip(at + 1)))
        } else {
            (name, FormatModel::FullVar(name))
        },
{
    if selects_port(name) {
        let i = choose|i: int|
            splits_at(name, i) && preferred_ports().contains(upper(#[trigger] name.skip(i + 1)));
        lemma_split_unique(name, i, at);
    }
}

/// The pattern of a signal name that may select a port.
pub open spec fn signal_pattern() -> Seq<char> {
    "^(?P<base>[a-zA-Z0-9_]+)[\\_$](?P<port>[a-zA-Z0-9]+)$"@
}

/// Compiles `pattern` with `regex::Regex::new`, matches `name` against it
/// with `Regex::captures`, and hands back the texts of its first and second
/// group (`Captures::get`, `Match::as_str`). The contract is stated for the
/// one pattern `signal_pattern` and says what the syntax of `regex` gives
/// that pattern to mean: anchored at both ends of the name, a first group of
/// one or more ASCII letters, digits and `'_'`, then one `'_'` or `'$'`, then
/// a second group of one or more ASCII letters and digits. Since the second
/// group holds no `'_'` or `'$'`, a name matches in one way at most. This is
/// believed of `regex`, not proved.
#[verifier::external_body]
fn match_signal(pattern: &str, name: &str) -> (r: Option<(String, String)>)
    requires
        pattern@ == signal_pattern(),
    ensures
        match r {
            Some((base, port)) => exists|i: int|
                splits_at(name@, i) && base@ == name@.take(i) && port@ == #[trigger] name@.skip(
                    i + 1,
                ),
            None => forall|i: int| !splits_at(name@, i),
        },
{
    let groups = regex::Regex::new(pattern).ok()?.captures(name)?;
    Some((groups.get(1)?.as_str().to_string(), groups.get(2)?.as_str().to_string()))
}

/// Reads the signal name `name`: see `signal_reading`.
pub fn parse_signal_name(name: &str) -> (r: (String, SignalNameFormat))
    ensures
        (r.0@, r.1@) == signal_reading(name@),
{
    match match_signal("^(?P<base>[a-zA-Z0-9_]+)[\\_$](?P<port>[a-zA-Z0-9]+)$", name) {
        Some((base, port)) => {
            let selector = chars_of(port.as_str());
            proof {
                let at = choose|i: int|
                    splits_at(name@, i) && base@ == name@.take(i) && port@ == #[trigger] name@.skip(
                        i + 1,
                    );
                lemma_reading_of_split(name@, at);
            }
            if is_preferred(selector.as_slice()) {
                (base, SignalNameFormat::PortedVar(port))
            } else {
                (name.to_owned(), SignalNameFormat::FullVar(name.to_owned()))
            }
        },
        None => (name.to_owned(), SignalNameFormat::FullVar(name.to_owned())),
    }
}

/// What is asked of a port.
pub ghost enum PortTest {
    /// Its name, in capitals, is this.
    UpperIs(Seq<char>),
    /// Its name is this.
    NameIs(Seq<char>),
    /// Its name is not an ignored one.
    NotIgnored,
}

/// Whether `port` passes `test`.
pub open spec fn passes(port: PortModel, test: PortTest) -> bool {
    match test {
        PortTest::UpperIs(wanted) => upper(port.name) == wanted,
        PortTest::NameIs(wanted) => port.name == wanted,
        PortTest::NotIgnored => !ignored_ports().contains(port.name),
    }
}

/// The index of the first of `ports` that passes `test`, or the length of
/// `ports` when none does.
pub open spec fn first_passing(ports: Seq<PortModel>, test: PortTest) -> int
    decreases ports.len(),
{
    if ports.len() == 0 {
        0
    } else {
        let before = first_passing(ports.drop_last(), test);
        if before < ports.len() - 1 {
            before
        } else if passes(ports.last(), test) {
            ports.len() - 1
        } else {
            ports.len() as int
        }
    }
}

/// `first_passing` is the least index whose port passes.
pub proof fn lemma_first_passing(ports: Seq<PortModel>, test: PortTest)
    ensures
        0 <= first_passing(ports, test) <= ports.len(),
        first_passing(ports, test) < ports.len() ==> passes(ports[first_passing(ports, test)], test),
        forall|j: int| 0 <= j < first_passing(ports, test) ==> !passes(#[trigger] ports[j], test),
    decreases ports.len(),
{
    if ports.len() > 0 {
        let front = ports.drop_last();
        lemma_first_passing(front, test);
        assert forall|j: int| 0 <= j < first_passing(ports, test) implies !passes(
            #[trigger] ports[j],
            test,
        ) by {
            if j < front.len() {
                assert(front[j] == ports[j]);
            }
        }
    }
}

/// A port that passes, with none before it that does, is the first.
pub proof fn lemma_first_passing_is(ports: Seq<PortModel>, test: PortTest, at: int)
    requires
        0 <= at <= ports.len(),
        forall|j: int| 0 <= j < at ==> !passes(#[trigger] ports[j], test),
        at < ports.len() ==> passes(ports[at], test),
    ensures
        first_passing(ports, test) == at,
{
    lemma_first_passing(ports, test);
    let r = first_passing(ports, test);
    if r < at {
        assert(!passes(ports[r], test));
    }
    if at < r {
        assert(!passes(ports[at], test));
    }
}

/// The type of the first of `ports` that passes `test`.
pub open spec fn type_of_first(ports: Seq<PortModel>, test: PortTest) -> Option<Seq<char>> {
    let i = first_passing(ports, test);
    if i < ports.len() {
        Some(ports[i].ty_name)
    } else {
        None
    }
}

/// The type of the port that the preferred names of priority `k` and lower
/// pick: for the first of these names that a port carries, in capitals, the
/// first port that does.
pub open spec fn preferred_choice(ports: Seq<PortModel>, k: nat) -> Option<Seq<char>>
    decreases 7 - k,
{
    if k >= 7 {
        None
    } else {
        match type_of_first(ports, PortTest::UpperIs(preferred_ports()[k as int])) {
            Some(ty) => Some(ty),
            None => preferred_choice(ports, k + 1),
        }
    }
}

/// The type of the port that stands for a whole instance: the one that the
/// preferred names pick, else the first port that is not ignored.
pub open spec fn representative_type(ports: Seq<PortModel>) -> Option<Seq<char>> {
    match preferred_choice(ports, 0) {
        Some(ty) => Some(ty),
        None => type_of_first(ports, PortTest::NotIgnored),
    }
}

/// The type that a signal of the block `block` shows, by the reading of its
/// name.
pub open spec fn port_type(block: BlockModel, format: FormatModel) -> Option<Seq<char>> {
    match format {
        FormatModel::PortedVar(port) => type_of_first(block.ports, PortTest::NameIs(port)),
        FormatModel::FullVar(_) => representative_type(block.ports),
        FormatModel::Unknown => None,
    }
}

/// The text of a string that may be missing.
pub open spec fn text_of(s: Option<String>) -> Option<Seq<char>> {
    match s {
        Some(text) => Some(text@),
        None => None,
    }
}

/// What is asked of a port, with the wanted name as characters.
enum Probe<'a> {
    UpperIs(&'a [char]),
    NameIs(&'a [char]),
    NotIgnored,
}

impl<'a> View for Probe<'a> {
    type V = PortTest;

    closed spec fn view(&self) -> PortTest {
        match self {
            Probe::UpperIs(wanted) => PortTest::UpperIs(wanted@),
            Probe::NameIs(wanted) => PortTest::NameIs(wanted@),
            Probe::NotIgnored => PortTest::NotIgnored,
        }
    }
}

fn port_passes(port: &RawBlockPort, probe: &Probe) -> (yes: bool)
    ensures
        yes == passes(port@, probe@),
{
    let name = chars_of(port.name.as_str());
    match probe {
        Probe::UpperIs(wanted) => upper_equals(name.as_slice(), wanted),
        Probe::NameIs(wanted) => same_chars(name.as_slice(), wanted),
        Probe::NotIgnored => !is_ignored(name.as_slice()),
    }
}

fn first_type(block: &RawBlockDefinition, probe: &Probe) -> (found: Option<String>)
    ensures
        text_of(found) == type_of_first(block@.ports, probe@),
{
    let mut i: usize = 0;
    while i < block.ports.len() && !port_passes(&block.ports[i], probe)
        invariant
            i <= block.ports@.len(),
            forall|j: int| 0 <= j < i ==> !passes(#[trigger] block@.ports[j], probe@),
        decreases block.ports@.len() - i,
    {
        i += 1;
    }
    proof {
        lemma_first_passing_is(block@.ports, probe@, i as int);
    }
    if i < block.ports.len() {
        Some(block.ports[i].ty_name.clone())
    } else {
        None
    }
}

/// The type that a signal of the block `block` shows, by the reading
/// `format` of its name: see `port_type`.
pub fn select_port_type(block: &RawBlockDefinition, format: &SignalNameFormat) -> (found: Option<
    String,
>)
    ensures
        text_of(found) == port_type(block@, format@),
{
    match format {
        SignalNameFormat::PortedVar(port) => {
            let wanted = chars_of(port.as_str());
            first_type(block, &Probe::NameIs(wanted.as_slice()))
        },
        SignalNameFormat::FullVar(_) => {
            let mut k: usize = 0;
            while k < 7
                invariant
                    k <= 7,
                    format@ is FullVar,
                    preferred_choice(block@.ports, 0) == preferred_choice(block@.ports, k as nat),
                decreases 7 - k,
            {
                let wanted = chars_of(preferred_port(k));
                let found = first_type(block, &Probe::UpperIs(wanted.as_slice()));
                if found.is_some() {
                    return found;
                }
                k += 1;
            }
            first_type(block, &Probe::NotIgnored)
        },
        SignalNameFormat::Unknown => None,
    }
}

/// The type that the signal called `name` shows in a module of the type
/// `module`: the name is read, its instance looked up among the blocks of
/// the module, and the port chosen by the reading. `None` where the module
/// or the instance is not known or no port fits.
pub open spec fn signal_type(
    modules: Map<Seq<char>, Map<Seq<char>, BlockModel>>,
    module: Seq<char>,
    name: Seq<char>,
) -> Option<Seq<char>> {
    let reading = signal_reading(name);
    if modules.contains_key(module) && modules[module].contains_key(reading.0) {
        port_type(modules[module][reading.0], reading.1)
    } else {
        None
    }
}

/// The type that the signal called `name` shows under the scope `path`.
pub open spec fn variable_type(
    reg: Registry,
    path: Seq<Seq<char>>,
    name: Seq<char>,
) -> Option<Seq<char>> {
    match resolve_module(alias_models(reg.aliases@), module_models(reg.modules@), path) {
        Some(module) => signal_type(module_models(reg.modules@), module, name),
        None => None,
    }
}

/// The type that the signal called `raw_name` shows in a module of the type
/// `module`: see `signal_type`.
pub fn resolve_signal(reg: &Registry, raw_name: &str, module: &str) -> (found: Option<String>)
    ensures
        text_of(found) == signal_type(module_models(reg.modules@), module@, raw_name@),
{
    let reading = parse_signal_name(raw_name);
    match reg.modules.get(module) {
        Some(data) => match data.blocks.get(reading.0.as_str()) {
            Some(block) => select_port_type(block, &reading.1),
            None => None,
        },
        None => None,
    }
}

/// The type that the signal called `name` shows under the scope
/// `scope_path`: the scope is resolved to a module type, then the signal in
/// it.
pub fn get_variable_type_name(reg: &Registry, scope_path: &[String], name: &str) -> (found: Option<
    String,
>)
    ensures
        text_of(found) == variable_type(*reg, texts(scope_path@), name@),
{
    match get_current_module(reg, scope_path) {
        Ok(module) => resolve_signal(reg, name, module.as_str()),
        Err(_) => None,
    }
}

} // verus!
