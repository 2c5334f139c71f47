//! The configuration grammar and its verified parser.
//!
//! A configuration text is a sequence of lines. Each record starts at an
//! unindented line: `Serial: {}` and `Ethernet: {}` stand alone, while
//! `MassStorage:` opens a block of field lines indented by two spaces, one
//! `key: value` field per line. Recognised keys are `name`, `path` and
//! `icon` (required, `icon` being `File(<path>)` or `Resource(<name>)`),
//! and the booleans `read_only` and `as_cdrom` (optional, `true` or
//! `false`, defaulting to false). Empty lines close an open block and are
//! otherwise ignored. The parser either accepts the whole text or reports
//! the first offence.

use vstd::prelude::*;
use vstd::string::StrSliceExecFns;
use vstd::string::StringExecFns;

use crate::gadget::{flag_set, Gadget, GadgetV, IconKind, IconV, ImageInfo, ImageInfoV};

verus! {

/// Why a configuration text was rejected.
#[derive(Clone, Copy, Debug, PartialEq, Eq)]
pub enum ParseError {
    /// An indented line appeared outside a `MassStorage:` block.
    UnexpectedIndent,
    /// An unindented line is none of the three record heads.
    UnknownRecord,
    /// A field line names no recognised key.
    UnknownField,
    /// A field was given twice within one block.
    DuplicateField,
    /// `name` or `path` was given an empty value.
    EmptyField,
    /// `read_only` or `as_cdrom` was given a value other than `true`/`false`.
    BadBool,
    /// `icon` was given a value that is neither `File(..)` nor `Resource(..)`.
    BadIcon,
    /// A `MassStorage:` block ended before `name`, `path` and `icon` were all given.
    IncompleteRecord,
}

/// The diagnostic text of each parse error.
pub open spec fn spec_describe(e: ParseError) -> Seq<char> {
    match e {
        ParseError::UnexpectedIndent => "indented line outside a MassStorage block"@,
        ParseError::UnknownRecord => "line is not a known record"@,
        ParseError::UnknownField => "field is not a known key"@,
        ParseError::DuplicateField => "field given twice"@,
        ParseError::EmptyField => "name and path must not be empty"@,
        ParseError::BadBool => "boolean field must be true or false"@,
        ParseError::BadIcon => "icon must be File(..) or Resource(..)"@,
        ParseError::IncompleteRecord => "MassStorage needs name, path and icon"@,
    }
}

impl ParseError {
    /// The diagnostic text logged for this error.
    pub fn describe(&self) -> (r: String)
        ensures
            r@ == spec_describe(*self),
    {
        match self {
            ParseError::UnexpectedIndent => String::from_str(
                "indented line outside a MassStorage block",
            ),
            ParseError::UnknownRecord => String::from_str("line is not a known record"),
            ParseError::UnknownField => String::from_str("field is not a known key"),
            ParseError::DuplicateField => String::from_str("field given twice"),
            ParseError::EmptyField => String::from_str("name and path must not be empty"),
            ParseError::BadBool => String::from_str("boolean field must be true or false"),
            ParseError::BadIcon => String::from_str("icon must be File(..) or Resource(..)"),
            ParseError::IncompleteRecord => String::from_str(
                "MassStorage needs name, path and icon",
            ),
        }
    }
}

// ---------------------------------------------------------------------------
// Splitting a text into lines.
// ---------------------------------------------------------------------------

/// The lines of a text: maximal runs of characters between `'\n'`
/// separators. A text without a newline is one line; a trailing newline
/// yields a final empty line.
pub open spec fn spec_lines(s: Seq<char>) -> Seq<Seq<char>>
    decreases s.len(),
{
    if s.len() == 0 {
        seq![Seq::<char>::empty()]
    } else if s[0] == '\n' {
        seq![Seq::<char>::empty()] + spec_lines(s.skip(1))
    } else {
        let rest = spec_lines(s.skip(1));
        seq![seq![s[0]] + rest[0]] + rest.skip(1)
    }
}

proof fn lemma_spec_lines_nonempty(s: Seq<char>)
    ensures
        spec_lines(s).len() >= 1,
    decreases s.len(),
{
}

/// The first line extended at the front with `p`; the remaining lines kept.
spec fn prepend_first(p: Seq<char>, ls: Seq<Seq<char>>) -> Seq<Seq<char>>
    recommends
        ls.len() >= 1,
{
    seq![p + ls[0]] + ls.skip(1)
}

/// True exactly when the two strings hold the same characters.
pub fn str_eq(a: &str, b: &str) -> (r: bool)
    ensures
        r == (a@ == b@),
{
    let alen = a.unicode_len();
    let blen = b.unicode_len();
    if alen != blen {
        return false;
    }
    let mut i: usize = 0;
    while i < alen
        invariant
            alen == a@.len(),
            alen == b@.len(),
            0 <= i <= alen,
            forall|j: int| 0 <= j < i ==> a@[j] == b@[j],
        decreases alen - i,
    {
        if a.get_char(i) != b.get_char(i) {
            return false;
        }
        i += 1;
    }
    proof {
        assert(a@ =~= b@);
    }
    true
}

/// True exactly when `prefix` is a prefix of `s`.
pub fn str_starts_with(s: &str, prefix: &str) -> (r: bool)
    ensures
        r == prefix@.is_prefix_of(s@),
{
    let plen = prefix.unicode_len();
    if s.unicode_len() < plen {
        return false;
    }
    let head = s.substring_char(0, plen);
    str_eq(head, prefix)
}

/// The suffix of `s` from character position `n` on.
pub fn str_skip(s: &str, n: usize) -> (r: &str)
    requires
        n <= s@.len(),
    ensures
        r@ == s@.skip(n as int),
{
    let r = s.substring_char(n, s.unicode_len());
    proof {
        assert(s@.subrange(n as int, s@.len() as int) =~= s@.skip(n as int));
    }
    r
}

/// Split a text into its lines.
pub fn split_lines(s: &str) -> (r: Vec<String>)
    ensures
        r.deep_view() == spec_lines(s@),
{
    let len = s.unicode_len();
    let mut out: Vec<String> = Vec::new();
    let mut start: usize = 0;
    let mut i: usize = 0;
    proof {
        assert(s@.subrange(0, 0) =~= Seq::<char>::empty());
        lemma_spec_lines_nonempty(s@);
        assert(s@.skip(0) =~= s@);
        assert(Seq::<char>::empty() + spec_lines(s@)[0] =~= spec_lines(s@)[0]);
        assert(out.deep_view() + prepend_first(s@.subrange(0, 0), spec_lines(s@.skip(0)))
            =~= spec_lines(s@));
    }
    while i < len
        invariant
            len == s@.len(),
            0 <= start <= i <= len,
            spec_lines(s@) == out.deep_view() + prepend_first(
                s@.subrange(start as int, i as int),
                spec_lines(s@.skip(i as int)),
            ),
        decreases len - i,
    {
        let ghost p = s@.subrange(start as int, i as int);
        let ghost tail = s@.skip(i as int);
        let ghost tail1 = s@.skip(i as int + 1);
        proof {
            assert(tail.len() > 0);
            assert(tail[0] == s@[i as int]);
            assert(tail.skip(1) =~= tail1);
            lemma_spec_lines_nonempty(tail1);
        }
        let c = s.get_char(i);
        if c == '\n' {
            let line = s.substring_char(start, i);
            proof {
                // spec_lines(tail) unfolds to an empty first line plus the
                // lines of the rest.
                assert(spec_lines(tail) == seq![Seq::<char>::empty()] + spec_lines(tail1));
                assert(p + (seq![Seq::<char>::empty()] + spec_lines(tail1))[0] =~= p);
                assert((seq![Seq::<char>::empty()] + spec_lines(tail1)).skip(1) =~= spec_lines(
                    tail1,
                ));
                assert(prepend_first(p, spec_lines(tail)) =~= seq![p] + spec_lines(tail1));
                assert(Seq::<char>::empty() + spec_lines(tail1)[0] =~= spec_lines(tail1)[0]);
                assert(seq![p] + prepend_first(Seq::<char>::empty(), spec_lines(tail1))
                    =~= seq![p] + spec_lines(tail1));
                assert(s@.subrange(i as int + 1, i as int + 1) =~= Seq::<char>::empty());
            }
            let ghost out0 = out.deep_view();
            out.push(String::from_str(line));
            proof {
                assert(out.deep_view() =~= out0.push(p));
                assert(out0.push(p) =~= out0 + seq![p]);
                assert(spec_lines(s@) =~= out.deep_view() + prepend_first(
                    s@.subrange(i as int + 1, i as int + 1),
                    spec_lines(tail1),
                ));
            }
            start = i + 1;
        } else {
            proof {
                let rest = spec_lines(tail1);
                assert(spec_lines(tail) == seq![seq![tail[0]] + rest[0]] + rest.skip(1));
                assert(p + (seq![tail[0]] + rest[0]) =~= (p + seq![tail[0]]) + rest[0]);
                assert(p + seq![tail[0]] =~= s@.subrange(start as int, i as int + 1));
                assert((seq![seq![tail[0]] + rest[0]] + rest.skip(1)).skip(1) =~= rest.skip(1));
                assert(prepend_first(p, spec_lines(tail)) =~= prepend_first(
                    s@.subrange(start as int, i as int + 1),
                    rest,
                ));
                assert(spec_lines(s@) =~= out.deep_view() + prepend_first(
                    s@.subrange(start as int, i as int + 1),
                    rest,
                ));
            }
        }
        i += 1;
    }
    let last = s.substring_char(start, len);
    proof {
        let p = s@.subrange(start as int, len as int);
        assert(s@.skip(len as int) =~= Seq::<char>::empty());
        assert(spec_lines(s@.skip(len as int)) == spec_lines(Seq::<char>::empty()));
        assert(spec_lines(Seq::<char>::empty()) == seq![Seq::<char>::empty()]);
        assert(p + Seq::<char>::empty() =~= p);
        assert(prepend_first(p, seq![Seq::<char>::empty()]) =~= seq![p]);
    }
    let ghost out0 = out.deep_view();
    out.push(String::from_str(last));
    proof {
        let p = s@.subrange(start as int, len as int);
        assert(out.deep_view() =~= out0.push(p));
        assert(out0.push(p) =~= out0 + seq![p]);
        assert(out.deep_view() =~= spec_lines(s@));
    }
    out
}

// ---------------------------------------------------------------------------
// The record grammar, one line at a time.
// ---------------------------------------------------------------------------

/// The fields gathered so far inside one `MassStorage:` block.
pub struct PartialImage {
    pub name: Option<String>,
    pub path: Option<String>,
    pub icon: Option<IconKind>,
    pub read_only: Option<bool>,
    pub as_cdrom: Option<bool>,
}

/// Model of a `PartialImage`.
#[verifier::ext_equal]
pub struct PartialV {
    pub name: Option<Seq<char>>,
    pub path: Option<Seq<char>>,
    pub icon: Option<IconV>,
    pub read_only: Option<bool>,
    pub as_cdrom: Option<bool>,
}

impl View for PartialImage {
    type V = PartialV;

    open spec fn view(&self) -> PartialV {
        PartialV {
            name: match self.name {
                Some(ref n) => Some(n@),
                None => None,
            },
            path: match self.path {
                Some(ref p) => Some(p@),
                None => None,
            },
            icon: match self.icon {
                Some(ref ic) => Some(ic@),
                None => None,
            },
            read_only: self.read_only,
            as_cdrom: self.as_cdrom,
        }
    }
}

/// What the parser is in the middle of: top level, or a `MassStorage:` block.
pub enum PState {
    Top,
    InMass(PartialImage),
}

/// Model of a `PState`.
pub enum StateV {
    Top,
    InMass(PartialV),
}

impl View for PState {
    type V = StateV;

    open spec fn view(&self) -> StateV {
        match self {
            PState::Top => StateV::Top,
            PState::InMass(p) => StateV::InMass(p@),
        }
    }
}

/// A block with no field given yet.
pub open spec fn spec_empty_partial() -> PartialV {
    PartialV { name: None, path: None, icon: None, read_only: None, as_cdrom: None }
}

/// A field line is indented by exactly two spaces.
pub open spec fn spec_indented(line: Seq<char>) -> bool {
    line.len() >= 2 && line[0] == ' ' && line[1] == ' '
}

/// The value part of a field line, after its `key: ` prefix.
pub open spec fn spec_after_key(rest: Seq<char>, key: Seq<char>) -> Seq<char> {
    rest.skip(key.len() as int)
}

/// A boolean field value: `true` or `false`, nothing else.
pub open spec fn spec_bool_value(v: Seq<char>) -> Option<bool> {
    if v == "true"@ {
        Some(true)
    } else if v == "false"@ {
        Some(false)
    } else {
        None
    }
}

/// An icon field value: `File(<path>)` or `Resource(<name>)`.
pub open spec fn spec_icon_value(v: Seq<char>) -> Option<IconV> {
    if v.len() >= 6 && "File("@.is_prefix_of(v) && v.last() == ')' {
        Some(IconV::File(v.subrange(5, v.len() - 1)))
    } else if v.len() >= 10 && "Resource("@.is_prefix_of(v) && v.last() == ')' {
        Some(IconV::Resource(v.subrange(9, v.len() - 1)))
    } else {
        None
    }
}

/// One field line (already stripped of its indent) applied to the fields
/// gathered so far. Each key may appear once; `name` and `path` must not be
/// empty.
pub open spec fn spec_field(p: PartialV, rest: Seq<char>) -> Result<PartialV, ParseError> {
    if "name: "@.is_prefix_of(rest) {
        let v = spec_after_key(rest, "name: "@);
        if p.name is Some {
            Err(ParseError::DuplicateField)
        } else if v.len() == 0 {
            Err(ParseError::EmptyField)
        } else {
            Ok(PartialV { name: Some(v), ..p })
        }
    } else if "path: "@.is_prefix_of(rest) {
        let v = spec_after_key(rest, "path: "@);
        if p.path is Some {
            Err(ParseError::DuplicateField)
        } else if v.len() == 0 {
            Err(ParseError::EmptyField)
        } else {
            Ok(PartialV { path: Some(v), ..p })
        }
    } else if "icon: "@.is_prefix_of(rest) {
        let v = spec_after_key(rest, "icon: "@);
        if p.icon is Some {
            Err(ParseError::DuplicateField)
        } else {
            match spec_icon_value(v) {
                Some(ic) => Ok(PartialV { icon: Some(ic), ..p }),
                None => Err(ParseError::BadIcon),
            }
        }
    } else if "read_only: "@.is_prefix_of(rest) {
        let v = spec_after_key(rest, "read_only: "@);
        if p.read_only is Some {
            Err(ParseError::DuplicateField)
        } else {
            match spec_bool_value(v) {
                Some(b) => Ok(PartialV { read_only: Some(b), ..p }),
                None => Err(ParseError::BadBool),
            }
        }
    } else if "as_cdrom: "@.is_prefix_of(rest) {
        let v = spec_after_key(rest, "as_cdrom: "@);
        if p.as_cdrom is Some {
            Err(ParseError::DuplicateField)
        } else {
            match spec_bool_value(v) {
                Some(b) => Ok(PartialV { as_cdrom: Some(b), ..p }),
                None => Err(ParseError::BadBool),
            }
        }
    } else {
        Err(ParseError::UnknownField)
    }
}

/// A finished `MassStorage:` block: the three required fields must be
/// present, the booleans default to false.
pub open spec fn spec_finish(p: PartialV) -> Result<GadgetV, ParseError> {
    match (p.name, p.path, p.icon) {
        (Some(n), Some(pa), Some(ic)) => Ok(
            GadgetV::MassStorage(
                ImageInfoV {
                    name: n,
                    path: pa,
                    icon: ic,
                    read_only: flag_set(p.read_only),
                    as_cdrom: flag_set(p.as_cdrom),
                },
            ),
        ),
        _ => Err(ParseError::IncompleteRecord),
    }
}

/// A line seen at top level: empty lines are skipped, the two bare records
/// are emitted at once, `MassStorage:` opens a block.
pub open spec fn spec_head(line: Seq<char>) -> Result<(StateV, Seq<GadgetV>), ParseError> {
    if line.len() == 0 {
        Ok((StateV::Top, Seq::<GadgetV>::empty()))
    } else if line == "Serial: {}"@ {
        Ok((StateV::Top, seq![GadgetV::Serial]))
    } else if line == "Ethernet: {}"@ {
        Ok((StateV::Top, seq![GadgetV::Ethernet]))
    } else if line == "MassStorage:"@ {
        Ok((StateV::InMass(spec_empty_partial()), Seq::<GadgetV>::empty()))
    } else if spec_indented(line) {
        Err(ParseError::UnexpectedIndent)
    } else {
        Err(ParseError::UnknownRecord)
    }
}

/// One line applied to the parser's state: inside a block an indented line
/// is a field, and any other line first closes the block.
pub open spec fn spec_step(st: StateV, line: Seq<char>) -> Result<
    (StateV, Seq<GadgetV>),
    ParseError,
> {
    match st {
        StateV::Top => spec_head(line),
        StateV::InMass(p) => {
            if spec_indented(line) {
                match spec_field(p, line.skip(2)) {
                    Ok(p2) => Ok((StateV::InMass(p2), Seq::<GadgetV>::empty())),
                    Err(e) => Err(e),
                }
            } else {
                match spec_finish(p) {
                    Ok(g) => match spec_head(line) {
                        Ok(sg) => Ok((sg.0, seq![g] + sg.1)),
                        Err(e) => Err(e),
                    },
                    Err(e) => Err(e),
                }
            }
        },
    }
}

/// The whole run over the lines from position `i` on, with the gadgets
/// gathered so far; at the end an open block is closed.
pub open spec fn spec_run(
    lines: Seq<Seq<char>>,
    i: int,
    st: StateV,
    acc: Seq<GadgetV>,
) -> Result<Seq<GadgetV>, ParseError>
    decreases lines.len() - i,
    when 0 <= i <= lines.len()
{
    if i == lines.len() {
        match st {
            StateV::Top => Ok(acc),
            StateV::InMass(p) => match spec_finish(p) {
                Ok(g) => Ok(acc.push(g)),
                Err(e) => Err(e),
            },
        }
    } else {
        match spec_step(st, lines[i]) {
            Ok(sg) => spec_run(lines, i + 1, sg.0, acc + sg.1),
            Err(e) => Err(e),
        }
    }
}

/// What a configuration text means: the records its lines describe, in
/// file order, or the first offence.
pub open spec fn spec_parse(s: Seq<char>) -> Result<Seq<GadgetV>, ParseError> {
    spec_run(spec_lines(s), 0, StateV::Top, Seq::<GadgetV>::empty())
}

// ---------------------------------------------------------------------------
// Whatever parses is well formed.
// ---------------------------------------------------------------------------

/// The data-model invariant of a loaded gadget: a mass-storage image always
/// carries a non-empty display name and a non-empty backing path.
pub open spec fn spec_valid_gadget(g: GadgetV) -> bool {
    match g {
        GadgetV::MassStorage(img) => img.name.len() > 0 && img.path.len() > 0,
        GadgetV::Serial => true,
        GadgetV::Ethernet => true,
    }
}

/// The required string fields of a block are non-empty whenever present.
spec fn spec_valid_partial(p: PartialV) -> bool {
    &&& match p.name {
        Some(n) => n.len() > 0,
        None => true,
    }
    &&& match p.path {
        Some(q) => q.len() > 0,
        None => true,
    }
}

spec fn spec_valid_state(st: StateV) -> bool {
    match st {
        StateV::Top => true,
        StateV::InMass(p) => spec_valid_partial(p),
    }
}

proof fn lemma_step_valid(st: StateV, line: Seq<char>)
    requires
        spec_valid_state(st),
    ensures
        spec_step(st, line) matches Ok(sg) ==> spec_valid_state(sg.0) && (forall|k: int|
            0 <= k < sg.1.len() ==> spec_valid_gadget(#[trigger] sg.1[k])),
{
}

proof fn lemma_run_valid(lines: Seq<Seq<char>>, i: int, st: StateV, acc: Seq<GadgetV>)
    requires
        0 <= i <= lines.len(),
        spec_valid_state(st),
        forall|k: int| 0 <= k < acc.len() ==> spec_valid_gadget(#[trigger] acc[k]),
    ensures
        spec_run(lines, i, st, acc) matches Ok(gs) ==> forall|k: int|
            0 <= k < gs.len() ==> spec_valid_gadget(#[trigger] gs[k]),
    decreases lines.len() - i,
{
    if i == lines.len() {
        match st {
            StateV::Top => {},
            StateV::InMass(p) => {
                match spec_finish(p) {
                    Ok(g) => {
                        assert(forall|k: int| 0 <= k < acc.push(g).len() ==> spec_valid_gadget(
                            #[trigger] acc.push(g)[k],
                        ));
                    },
                    Err(_) => {},
                }
            },
        }
    } else {
        lemma_step_valid(st, lines[i]);
        match spec_step(st, lines[i]) {
            Ok(sg) => {
                assert(forall|k: int| 0 <= k < (acc + sg.1).len() ==> spec_valid_gadget(
                    #[trigger] (acc + sg.1)[k],
                ));
                lemma_run_valid(lines, i + 1, sg.0, acc + sg.1);
            },
            Err(_) => {},
        }
    }
}

/// Every gadget list the parser accepts satisfies the data-model
/// invariant: loaded mass-storage images never carry an empty name or an
/// empty backing path.
pub proof fn lemma_parsed_gadgets_well_formed(s: Seq<char>)
    ensures
        spec_parse(s) matches Ok(gs) ==> forall|k: int|
            0 <= k < gs.len() ==> spec_valid_gadget(#[trigger] gs[k]),
{
    lemma_run_valid(spec_lines(s), 0, StateV::Top, Seq::<GadgetV>::empty());
}

// ---------------------------------------------------------------------------
// The executable parser.
// ---------------------------------------------------------------------------

fn parse_bool(v: &str) -> (r: Option<bool>)
    ensures
        r == spec_bool_value(v@),
{
    if str_eq(v, "true") {
        Some(true)
    } else if str_eq(v, "false") {
        Some(false)
    } else {
        None
    }
}

fn parse_icon(v: &str) -> (r: Option<IconKind>)
    ensures
        match r {
            Some(ic) => spec_icon_value(v@) == Some(ic@),
            None => spec_icon_value(v@) is None,
        },
{
    let n = v.unicode_len();
    proof {
        reveal_strlit("File(");
        reveal_strlit("Resource(");
    }
    if n >= 6 && str_starts_with(v, "File(") && v.get_char(n - 1) == ')' {
        let inner = v.substring_char(5, n - 1);
        Some(IconKind::File(String::from_str(inner)))
    } else if n >= 10 && str_starts_with(v, "Resource(") && v.get_char(n - 1) == ')' {
        let inner = v.substring_char(9, n - 1);
        Some(IconKind::Resource(String::from_str(inner)))
    } else {
        None
    }
}

fn apply_field(p: PartialImage, rest: &str) -> (r: Result<PartialImage, ParseError>)
    ensures
        match r {
            Ok(p2) => spec_field(p@, rest@) == Ok::<PartialV, ParseError>(p2@),
            Err(e) => spec_field(p@, rest@) == Err::<PartialV, ParseError>(e),
        },
{
    proof {
        reveal_strlit("name: ");
        reveal_strlit("path: ");
        reveal_strlit("icon: ");
        reveal_strlit("read_only: ");
        reveal_strlit("as_cdrom: ");
    }
    if str_starts_with(rest, "name: ") {
        let v = str_skip(rest, 6);
        if p.name.is_some() {
            Err(ParseError::DuplicateField)
        } else if v.unicode_len() == 0 {
            Err(ParseError::EmptyField)
        } else {
            Ok(PartialImage { name: Some(String::from_str(v)), ..p })
        }
    } else if str_starts_with(rest, "path: ") {
        let v = str_skip(rest, 6);
        if p.path.is_some() {
            Err(ParseError::DuplicateField)
        } else if v.unicode_len() == 0 {
            Err(ParseError::EmptyField)
        } else {
            Ok(PartialImage { path: Some(String::from_str(v)), ..p })
        }
    } else if str_starts_with(rest, "icon: ") {
        let v = str_skip(rest, 6);
        if p.icon.is_some() {
            Err(ParseError::DuplicateField)
        } else {
            match parse_icon(v) {
                Some(ic) => Ok(PartialImage { icon: Some(ic), ..p }),
                None => Err(ParseError::BadIcon),
            }
        }
    } else if str_starts_with(rest, "read_only: ") {
        let v = str_skip(rest, 11);
        if p.read_only.is_some() {
            Err(ParseError::DuplicateField)
        } else {
            match parse_bool(v) {
                Some(b) => Ok(PartialImage { read_only: Some(b), ..p }),
                None => Err(ParseError::BadBool),
            }
        }
    } else if str_starts_with(rest, "as_cdrom: ") {
        let v = str_skip(rest, 10);
        if p.as_cdrom.is_some() {
            Err(ParseError::DuplicateField)
        } else {
            match parse_bool(v) {
                Some(b) => Ok(PartialImage { as_cdrom: Some(b), ..p }),
                None => Err(ParseError::BadBool),
            }
        }
    } else {
        Err(ParseError::UnknownField)
    }
}

fn finish_image(p: PartialImage) -> (r: Result<Gadget, ParseError>)
    ensures
        match r {
            Ok(g) => spec_finish(p@) == Ok::<GadgetV, ParseError>(g@),
            Err(e) => spec_finish(p@) == Err::<GadgetV, ParseError>(e),
        },
{
    let read_only = p.read_only;
    let as_cdrom = p.as_cdrom;
    match (p.name, p.path, p.icon) {
        (Some(name), Some(path), Some(icon)) => Ok(
            Gadget::MassStorage(ImageInfo { name, path, icon, read_only, as_cdrom }),
        ),
        _ => Err(ParseError::IncompleteRecord),
    }
}

fn head_step(line: &str) -> (r: Result<(PState, Vec<Gadget>), ParseError>)
    ensures
        match r {
            Ok(sg) => spec_head(line@) == Ok::<(StateV, Seq<GadgetV>), ParseError>(
                (sg.0@, sg.1.deep_view()),
            ),
            Err(e) => spec_head(line@) == Err::<(StateV, Seq<GadgetV>), ParseError>(e),
        },
{
    let n = line.unicode_len();
    if n == 0 {
        let gs: Vec<Gadget> = Vec::new();
        proof {
            assert(gs.deep_view() =~= Seq::<GadgetV>::empty());
        }
        Ok((PState::Top, gs))
    } else if str_eq(line, "Serial: {}") {
        let mut gs: Vec<Gadget> = Vec::new();
        gs.push(Gadget::Serial);
        proof {
            assert(gs.deep_view() =~= seq![GadgetV::Serial]);
        }
        Ok((PState::Top, gs))
    } else if str_eq(line, "Ethernet: {}") {
        let mut gs: Vec<Gadget> = Vec::new();
        gs.push(Gadget::Ethernet);
        proof {
            assert(gs.deep_view() =~= seq![GadgetV::Ethernet]);
        }
        Ok((PState::Top, gs))
    } else if str_eq(line, "MassStorage:") {
        let gs: Vec<Gadget> = Vec::new();
        let empty = PartialImage {
            name: None,
            path: None,
            icon: None,
            read_only: None,
            as_cdrom: None,
        };
        proof {
            assert(gs.deep_view() =~= Seq::<GadgetV>::empty());
        }
        Ok((PState::InMass(empty), gs))
    } else if n >= 2 && line.get_char(0) == ' ' && line.get_char(1) == ' ' {
        Err(ParseError::UnexpectedIndent)
    } else {
        Err(ParseError::UnknownRecord)
    }
}

fn exec_step(st: PState, line: &str) -> (r: Result<(PState, Vec<Gadget>), ParseError>)
    ensures
        match r {
            Ok(sg) => spec_step(st@, line@) == Ok::<(StateV, Seq<GadgetV>), ParseError>(
                (sg.0@, sg.1.deep_view()),
            ),
            Err(e) => spec_step(st@, line@) == Err::<(StateV, Seq<GadgetV>), ParseError>(e),
        },
{
    match st {
        PState::Top => head_step(line),
        PState::InMass(p) => {
            let n = line.unicode_len();
            if n >= 2 && line.get_char(0) == ' ' && line.get_char(1) == ' ' {
                let rest = str_skip(line, 2);
                match apply_field(p, rest) {
                    Ok(p2) => {
                        let gs: Vec<Gadget> = Vec::new();
                        proof {
                            assert(gs.deep_view() =~= Seq::<GadgetV>::empty());
                        }
                        Ok((PState::InMass(p2), gs))
                    },
                    Err(e) => Err(e),
                }
            } else {
                match finish_image(p) {
                    Ok(g) => match head_step(line) {
                        Ok((st2, gs)) => {
                            let ghost gv = g@;
                            let ghost gs0 = gs.deep_view();
                            let mut out: Vec<Gadget> = Vec::new();
                            out.push(g);
                            let mut tail = gs;
                            out.append(&mut tail);
                            proof {
                                assert(out.deep_view() =~= seq![gv] + gs0);
                            }
                            Ok((st2, out))
                        },
                        Err(e) => Err(e),
                    },
                    Err(e) => Err(e),
                }
            }
        },
    }
}

/// Parse a whole configuration text into its gadget records, or report the
/// first offence: the result is exactly what [`spec_parse`] gives the text.
pub fn parse_config(text: &str) -> (r: Result<Vec<Gadget>, ParseError>)
    ensures
        match r {
            Ok(gs) => spec_parse(text@) == Ok::<Seq<GadgetV>, ParseError>(gs.deep_view()),
            Err(e) => spec_parse(text@) == Err::<Seq<GadgetV>, ParseError>(e),
        },
{
    let lines = split_lines(text);
    let nlines = lines.len();
    let mut st = PState::Top;
    let mut acc: Vec<Gadget> = Vec::new();
    let mut i: usize = 0;
    proof {
        assert(acc.deep_view() =~= Seq::<GadgetV>::empty());
    }
    while i < nlines
        invariant
            nlines == lines@.len(),
            0 <= i <= nlines,
            lines.deep_view() == spec_lines(text@),
            lines.deep_view().len() == nlines,
            spec_run(lines.deep_view(), 0, StateV::Top, Seq::<GadgetV>::empty()) == spec_run(
                lines.deep_view(),
                i as int,
                st@,
                acc.deep_view(),
            ),
        decreases nlines - i,
    {
        let ghost stv = st@;
        let ghost accv = acc.deep_view();
        let ghost linev = lines.deep_view()[i as int];
        let line = &lines[i];
        proof {
            assert(line@ == linev);
        }
        match exec_step(st, line.as_str()) {
            Ok((st2, gs)) => {
                proof {
                    assert(spec_run(lines.deep_view(), i as int, stv, accv) == spec_run(
                        lines.deep_view(),
                        i as int + 1,
                        st2@,
                        accv + gs.deep_view(),
                    ));
                }
                let ghost acc0 = acc.deep_view();
                let ghost gs0 = gs.deep_view();
                st = st2;
                let mut tail = gs;
                acc.append(&mut tail);
                proof {
                    assert(acc.deep_view() =~= acc0 + gs0);
                }
            },
            Err(e) => {
                proof {
                    assert(spec_run(lines.deep_view(), i as int, stv, accv)
                        == Err::<Seq<GadgetV>, ParseError>(e));
                }
                return Err(e);
            },
        }
        i += 1;
    }
    let ghost accv = acc.deep_view();
    match st {
        PState::Top => {
            proof {
                assert(spec_run(lines.deep_view(), nlines as int, StateV::Top, accv)
                    == Ok::<Seq<GadgetV>, ParseError>(accv));
            }
            Ok(acc)
        },
        PState::InMass(p) => {
            let ghost pv = p@;
            match finish_image(p) {
                Ok(g) => {
                    let ghost gv = g@;
                    acc.push(g);
                    proof {
                        assert(acc.deep_view() =~= accv.push(gv));
                    }
                    Ok(acc)
                },
                Err(e) => Err(e),
            }
        },
    }
}

} // verus!
