//! Discovery of teleport destinations: the commands in an object's action
//! that name a destination, and the lines that record them.
//!
//! A destination is recorded as the world, the north-south coordinate and
//! the east-west coordinate as the action wrote them, then `: ZZZFound`.

use crate::propdump::Object;
use regex::Error as RegexError;
use regex::Regex;
use vstd::prelude::*;
use vstd::string::*;

verus! {

/// `regex::Regex`, a compiled expression: carried through as it is, with
/// nothing known of what is inside.
#[verifier::external_type_specification]
#[verifier::external_body]
pub struct ExRegex(Regex);

/// `regex::Error`, why a pattern could not be compiled: carried through as
/// it is.
#[verifier::external_type_specification]
#[verifier::external_body]
pub struct ExRegexError(RegexError);

/// Whether a pattern can be compiled: whether `Regex::new` gives an
/// expression for it.
pub uninterp spec fn regex_compiles(pattern: Seq<char>) -> bool;

/// The pattern that a compiled expression was made from: what
/// `Regex::as_str` gives for it.
pub uninterp spec fn regex_source(re: Regex) -> Seq<char>;

/// What the expression `re` finds in `text`: one entry for each match, in
/// the order of the matches, that holds what the groups named `first`,
/// `second` and `third` took, or `None` where a group took no part.
pub uninterp spec fn regex_captures(
    re: Regex,
    text: Seq<char>,
    first: Seq<char>,
    second: Seq<char>,
    third: Seq<char>,
) -> Seq<(Option<Seq<char>>, Option<Seq<char>>, Option<Seq<char>>)>;

/// The upper-case form of a text: what `str::to_uppercase` gives for it.
pub uninterp spec fn uppercase(text: Seq<char>) -> Seq<char>;

/// The text that bytes stand for, with a replacement character in place of
/// whatever is no well-formed UTF-8: what `String::from_utf8_lossy` gives
/// for them.
pub uninterp spec fn utf8_lossy(bytes: Seq<u8>) -> Seq<char>;

/// Whether every character of a text is an ASCII character.
pub open spec fn all_ascii(text: Seq<char>) -> bool {
    forall|i: int| 0 <= i < text.len() ==> (#[trigger] text[i]) as u32 <= 127
}

/// The upper-case form of an ASCII character: the capital of a small
/// letter, and every other character as it is.
pub open spec fn ascii_upper(c: char) -> char {
    if 97 <= c as u32 <= 122 {
        ((c as u32) - 32) as char
    } else {
        c
    }
}

/// The upper-case form of a text of ASCII characters.
pub open spec fn ascii_uppercase(text: Seq<char>) -> Seq<char> {
    Seq::new(text.len(), |i: int| ascii_upper(text[i]))
}

/// Whether every byte is an ASCII character.
pub open spec fn all_ascii_bytes(bytes: Seq<u8>) -> bool {
    forall|i: int| 0 <= i < bytes.len() ==> #[trigger] bytes[i] <= 127
}

/// The text of bytes that are ASCII characters.
pub open spec fn ascii_text(bytes: Seq<u8>) -> Seq<char> {
    Seq::new(bytes.len(), |i: int| bytes[i] as char)
}

/// What an optional string holds.
pub open spec fn text_of(s: Option<String>) -> Option<Seq<char>> {
    match s {
        Some(s) => Some(s@),
        None => None,
    }
}

/// What the three groups of one match hold.
pub open spec fn groups_of(row: (Option<String>, Option<String>, Option<String>)) -> (
    Option<Seq<char>>,
    Option<Seq<char>>,
    Option<Seq<char>>,
) {
    (text_of(row.0), text_of(row.1), text_of(row.2))
}

/// `Regex::new`: compiles a pattern. Whether it succeeds rests on the
/// pattern alone, as [`regex_compiles`] names it; where it does, the
/// expression keeps `pattern` as its source.
#[verifier::external_body]
fn compile(pattern: &str) -> (r: Result<Regex, RegexError>)
    ensures
        r is Ok <==> regex_compiles(pattern@),
        r matches Ok(re) ==> regex_source(re) == pattern@,
{
    Regex::new(pattern)
}

/// `Regex::captures_iter`, with `Captures::name` and `Match::as_str` on each
/// match: the result is what the expression finds in `text`, as
/// [`regex_captures`] names it, one entry for each match.
#[verifier::external_body]
fn captures(re: &Regex, text: &str, first: &str, second: &str, third: &str) -> (rows: Vec<
    (Option<String>, Option<String>, Option<String>),
>)
    ensures
        rows@.map_values(|row: (Option<String>, Option<String>, Option<String>)| groups_of(row))
            == regex_captures(*re, text@, first@, second@, third@),
{
    re.captures_iter(text).map(
        |found|
            (
                found.name(first).map(|m| m.as_str().to_string()),
                found.name(second).map(|m| m.as_str().to_string()),
                found.name(third).map(|m| m.as_str().to_string()),
            ),
    ).collect()
}

/// `str::to_uppercase`: the result is the upper-case form of `text`, as
/// [`uppercase`] names it. Of a text of ASCII characters it is the text
/// with a capital for each small letter.
#[verifier::external_body]
fn to_uppercase(text: &str) -> (r: String)
    ensures
        r@ == uppercase(text@),
        all_ascii(text@) ==> r@ == ascii_uppercase(text@),
{
    text.to_uppercase()
}

/// `String::from_utf8_lossy`: the result is the text that `bytes` stand
/// for, as [`utf8_lossy`] names it. Bytes that are ASCII characters, which
/// are well-formed UTF-8, stand for themselves.
#[verifier::external_body]
fn lossy_text(bytes: &[u8]) -> (r: String)
    ensures
        r@ == utf8_lossy(bytes@),
        all_ascii_bytes(bytes@) ==> r@ == ascii_text(bytes@),
{
    String::from_utf8_lossy(bytes).into_owned()
}

/// The expression that finds a teleport command and its destination: one of
/// the words `teleport`, `teleportx` and `warp` in either case, at the start
/// of the text or after a character that belongs to no word, then
/// optionally a world, then the north-south and the east-west coordinate.
pub const TELEPORT_PATTERN: &'static str =
    "(?i)(?:^|\\W)(teleportx?|warp)\\W+((?P<world>\\w+)\\W+)?(?P<ns>[0-9.]+(n|s))\\W+(?P<ew>[0-9.]+(e|w))";

/// Why no destinations could be looked for or recorded.
#[derive(Copy, Clone, Debug, PartialEq, Eq, Structural)]
pub enum DiscoveryError {
    /// The expression that finds teleport commands could not be compiled.
    Pattern,
    /// A command was found without one of its two coordinates.
    MissingCoordinate,
}

/// One teleport command found in an action.
#[derive(Clone, Debug, PartialEq, Eq)]
pub struct Destination {
    /// The world that the command names, in upper case, if it names one.
    pub world: Option<String>,
    /// The north-south coordinate as the command wrote it.
    pub ns: Option<String>,
    /// The east-west coordinate as the command wrote it.
    pub ew: Option<String>,
}

/// What a [`Destination`] holds, as mathematical values.
pub struct DestinationView {
    pub world: Option<Seq<char>>,
    pub ns: Option<Seq<char>>,
    pub ew: Option<Seq<char>>,
}

impl View for Destination {
    type V = DestinationView;

    open spec fn view(&self) -> DestinationView {
        DestinationView { world: text_of(self.world), ns: text_of(self.ns), ew: text_of(self.ew) }
    }
}

/// What the destinations of a vector hold, in order.
pub open spec fn destination_views(found: Seq<Destination>) -> Seq<DestinationView> {
    found.map_values(|d: Destination| d@)
}

/// What the strings of a vector hold, in order.
pub open spec fn texts(lines: Seq<String>) -> Seq<Seq<char>> {
    lines.map_values(|line: String| line@)
}

/// The destination that the groups of one match describe: the world in
/// upper case, the coordinates as they stand.
pub open spec fn normalized_one(
    row: (Option<Seq<char>>, Option<Seq<char>>, Option<Seq<char>>),
) -> DestinationView {
    DestinationView {
        world: match row.0 {
            Some(world) => Some(uppercase(world)),
            None => None,
        },
        ns: row.1,
        ew: row.2,
    }
}

/// The destinations that the matches describe, in order.
pub open spec fn normalized(
    rows: Seq<(Option<Seq<char>>, Option<Seq<char>>, Option<Seq<char>>)>,
) -> Seq<DestinationView> {
    rows.map_values(
        |row: (Option<Seq<char>>, Option<Seq<char>>, Option<Seq<char>>)| normalized_one(row),
    )
}

/// The teleport commands that the expression `re` finds in an action, as
/// destinations.
pub open spec fn destinations_in(re: Regex, action: Seq<u8>) -> Seq<DestinationView> {
    normalized(regex_captures(re, utf8_lossy(action), "world"@, "ns"@, "ew"@))
}

/// The line that records a destination.
pub open spec fn line_text(world: Seq<char>, ns: Seq<char>, ew: Seq<char>) -> Seq<char> {
    world + " "@ + ns + " "@ + ew + ": ZZZFound\n"@
}

/// Whether a destination is one of `world`: it names no world, or that one.
pub open spec fn in_world(world: Seq<char>, found: DestinationView) -> bool {
    found.world is None || found.world == Some(world)
}

/// The lines that record the destinations of `world` among `found`, in
/// order; an error where one of them lacks a coordinate.
pub open spec fn lines_of(world: Seq<char>, found: Seq<DestinationView>) -> Result<
    Seq<Seq<char>>,
    DiscoveryError,
>
    decreases found.len(),
{
    if found.len() == 0 {
        Ok(Seq::empty())
    } else {
        match lines_of(world, found.drop_last()) {
            Err(e) => Err(e),
            Ok(lines) => if !in_world(world, found.last()) {
                Ok(lines)
            } else if found.last().ns is None || found.last().ew is None {
                Err(DiscoveryError::MissingCoordinate)
            } else {
                Ok(lines.push(line_text(world, found.last().ns.unwrap(), found.last().ew.unwrap())))
            },
        }
    }
}

/// The line that records a destination: the world, the two coordinates and
/// the closing words, with a line feed.
pub fn discovery_line(world: &str, ns: &str, ew: &str) -> (line: String)
    ensures
        line@ == line_text(world@, ns@, ew@),
{
    let mut line = String::from_str(world);
    line.append(" ");
    line.append(ns);
    line.append(" ");
    line.append(ew);
    line.append(": ZZZFound\n");
    line
}

/// The lines that record the destinations of `world` among `found`.
///
/// A destination that names another world is passed over. One of this world
/// that lacks a coordinate is an error.
pub fn discovery_lines(world: &str, found: &Vec<Destination>) -> (r: Result<
    Vec<String>,
    DiscoveryError,
>)
    ensures
        match lines_of(world@, destination_views(found@)) {
            Ok(lines) => r matches Ok(made) && texts(made@) == lines,
            Err(e) => r matches Err(f) && f == e,
        },
{
    let own = String::from_str(world);
    let mut lines: Vec<String> = Vec::new();
    let mut i: usize = 0;
    let ghost all = destination_views(found@);
    assert(all.take(0) =~= Seq::<DestinationView>::empty());
    assert(texts(lines@) =~= Seq::<Seq<char>>::empty());
    while i < found.len()
        invariant
            0 <= i <= found@.len(),
            all == destination_views(found@),
            own@ == world@,
            lines_of(world@, all.take(i as int)) == Ok::<Seq<Seq<char>>, DiscoveryError>(
                texts(lines@),
            ),
        decreases found@.len() - i,
    {
        let ghost upto = all.take(i + 1);
        assert(upto.drop_last() =~= all.take(i as int));
        assert(upto.last() == found@[i as int]@);
        let d: &Destination = &found[i];
        let wanted: bool = match &d.world {
            None => true,
            Some(named) => *named == own,
        };
        assert(wanted == in_world(world@, upto.last()));
        if wanted {
            match (&d.ns, &d.ew) {
                (Some(ns), Some(ew)) => {
                    let ghost before = lines@;
                    lines.push(discovery_line(world, ns.as_str(), ew.as_str()));
                    assert(texts(lines@) =~= texts(before).push(line_text(world@, ns@, ew@)));
                },
                _ => {
                    proof {
                        lemma_lines_error_stays(world@, all, i + 1);
                    }
                    return Err(DiscoveryError::MissingCoordinate);
                },
            }
        }
        i = i + 1;
    }
    assert(all.take(i as int) =~= all);
    Ok(lines)
}

/// Once the destinations up to some place give an error, all of them do.
pub proof fn lemma_lines_error_stays(world: Seq<char>, found: Seq<DestinationView>, k: int)
    requires
        0 <= k <= found.len(),
        lines_of(world, found.take(k)) is Err,
    ensures
        lines_of(world, found) == lines_of(world, found.take(k)),
    decreases found.len() - k,
{
    if k == found.len() {
        assert(found.take(k) =~= found);
    } else {
        assert(found.take(k + 1).drop_last() =~= found.take(k));
        lemma_lines_error_stays(world, found, k + 1);
    }
}

/// The finder of teleport destinations for one world: it holds the name of
/// the world and the compiled expression by which commands are found.
pub struct TeleportAppender {
    world: String,
    source: String,
    pattern: Regex,
}

impl TeleportAppender {
    #[verifier::type_invariant]
    spec fn compiled(&self) -> bool {
        regex_source(self.pattern) == self.source@
    }

    /// The world whose destinations are recorded, in upper case.
    pub closed spec fn world(&self) -> Seq<char> {
        self.world@
    }

    /// The expression by which teleport commands are found.
    pub closed spec fn expression(&self) -> Regex {
        self.pattern
    }

    /// The pattern from which the expression was made.
    pub closed spec fn source(&self) -> Seq<char> {
        self.source@
    }

    /// A finder for the world `world`, whose name is kept in upper case. Its
    /// expression is compiled once, here, from [`TELEPORT_PATTERN`].
    ///
    /// It fails where that expression cannot be compiled, and only there.
    pub fn for_world(world: &str) -> (r: Result<TeleportAppender, DiscoveryError>)
        ensures
            r is Ok <==> regex_compiles(TELEPORT_PATTERN@),
            r matches Ok(made) ==> {
                &&& made.world() == uppercase(world@)
                &&& all_ascii(world@) ==> made.world() == ascii_uppercase(world@)
                &&& made.source() == TELEPORT_PATTERN@
                &&& regex_source(made.expression()) == TELEPORT_PATTERN@
            },
            r matches Err(e) ==> e == DiscoveryError::Pattern,
    {
        TeleportAppender::with_pattern(world, TELEPORT_PATTERN)
    }

    /// A finder for the world `world` that finds commands by an expression
    /// of the caller's own, compiled once, here. The expression names its
    /// groups `world`, `ns` and `ew`.
    ///
    /// It fails where `pattern` cannot be compiled, and only there.
    pub fn with_pattern(world: &str, pattern: &str) -> (r: Result<
        TeleportAppender,
        DiscoveryError,
    >)
        ensures
            r is Ok <==> regex_compiles(pattern@),
            r matches Ok(made) ==> {
                &&& made.world() == uppercase(world@)
                &&& all_ascii(world@) ==> made.world() == ascii_uppercase(world@)
                &&& made.source() == pattern@
                &&& regex_source(made.expression()) == pattern@
            },
            r matches Err(e) ==> e == DiscoveryError::Pattern,
    {
        match compile(pattern) {
            Ok(compiled) => Ok(
                TeleportAppender {
                    world: to_uppercase(world),
                    source: String::from_str(pattern),
                    pattern: compiled,
                },
            ),
            Err(_) => Err(DiscoveryError::Pattern),
        }
    }

    /// The pattern from which the expression of this finder was made.
    pub fn pattern(&self) -> (r: &str)
        ensures
            r@ == self.source(),
            regex_source(self.expression()) == r@,
    {
        proof {
            use_type_invariant(self);
        }
        self.source.as_str()
    }

    /// The world whose destinations are recorded, in upper case.
    pub fn world_name(&self) -> (r: &str)
        ensures
            r@ == self.world(),
    {
        self.world.as_str()
    }

    /// The teleport commands in an action, in the order in which they stand.
    pub fn find(&self, action: &[u8]) -> (found: Vec<Destination>)
        ensures
            destination_views(found@) == destinations_in(self.expression(), action@),
            all_ascii_bytes(action@) ==> destination_views(found@) == normalized(
                regex_captures(self.expression(), ascii_text(action@), "world"@, "ns"@, "ew"@),
            ),
    {
        let text = lossy_text(action);
        let rows = captures(&self.pattern, text.as_str(), "world", "ns", "ew");
        let ghost named = regex_captures(
            self.pattern,
            utf8_lossy(action@),
            "world"@,
            "ns"@,
            "ew"@,
        );
        let mut found: Vec<Destination> = Vec::new();
        let mut i: usize = 0;
        assert(rows@.len() == named.len());
        while i < rows.len()
            invariant
                0 <= i <= rows@.len(),
                rows@.len() == named.len(),
                rows@.map_values(
                    |row: (Option<String>, Option<String>, Option<String>)| groups_of(row),
                ) == named,
                found@.len() == i,
                forall|j: int| 0 <= j < i ==> (#[trigger] found@[j])@ == normalized_one(named[j]),
            decreases rows@.len() - i,
        {
            let row = &rows[i];
            assert(groups_of(rows@[i as int]) == named[i as int]);
            let world: Option<String> = match &row.0 {
                Some(name) => Some(to_uppercase(name.as_str())),
                None => None,
            };
            found.push(Destination { world, ns: row.1.clone(), ew: row.2.clone() });
            i = i + 1;
        }
        assert(destination_views(found@) =~= normalized(named));
        found
    }

    /// The lines that record the destinations which the action of an object
    /// names in the world of this finder.
    pub fn check_to_append(&self, object: &Object) -> (r: Result<Vec<String>, DiscoveryError>)
        ensures
            match lines_of(self.world(), destinations_in(self.expression(), object.action@)) {
                Ok(lines) => r matches Ok(made) && texts(made@) == lines,
                Err(e) => r matches Err(f) && f == e,
            },
    {
        let found = self.find(object.action.as_slice());
        discovery_lines(self.world.as_str(), &found)
    }
}

} // verus!
