//! Reading what users type: TNT limits, dimensions, codes, form fields and config names.
use vstd::prelude::*;

use crate::error::PearlError;
use crate::model::{Dimension, TNTNumCode, TNTNumRB};
use crate::text::{
    append_char, append_str, chars_of, decimal, parse_signed, parse_unsigned, push_usize, read_i64,
    read_unsigned, remove_ws, same_text, string_of, trim, trimmed_chars, without_whitespace,
    lemma_trim_of_trimmed, lemma_trim_trimmed, lemma_remove_ws_idempotent,
};

verus! {

/// The TNT limits that a list of numbers gives: none for no number, the same limit for red and
/// blue for one, red then blue for two; more is refused.
pub open spec fn max_tnt_of(v: Seq<u64>) -> Result<Option<TNTNumRB>, PearlError> {
    if v.len() == 0 {
        Ok(None)
    } else if v.len() == 1 {
        Ok(Some(TNTNumRB { red: v[0], blue: v[0] }))
    } else if v.len() == 2 {
        Ok(Some(TNTNumRB { red: v[0], blue: v[1] }))
    } else {
        Err(PearlError::InvalidMaxTntArgCount(v.len() as usize))
    }
}

/// Reads the TNT limits given on the command line.
pub fn parse_max_tnt_num(values: Option<Vec<u64>>) -> (res: Result<Option<TNTNumRB>, PearlError>)
    ensures
        values is None ==> res == Ok::<Option<TNTNumRB>, PearlError>(None),
        values matches Some(v) ==> res == max_tnt_of(v@),
{
    match values {
        None => Ok(None),
        Some(v) => {
            if v.len() == 0 {
                Ok(None)
            } else if v.len() == 1 {
                Ok(Some(TNTNumRB { red: v[0], blue: v[0] }))
            } else if v.len() == 2 {
                Ok(Some(TNTNumRB { red: v[0], blue: v[1] }))
            } else {
                Err(PearlError::InvalidMaxTntArgCount(v.len()))
            }
        },
    }
}

/// The dimension a name stands for on the command line.
pub open spec fn dimension_named(s: Seq<char>) -> Option<Dimension> {
    if s == "overworld"@ {
        Some(Dimension::Overworld)
    } else if s == "nether"@ {
        Some(Dimension::Nether)
    } else if s == "end"@ {
        Some(Dimension::End)
    } else {
        None
    }
}

/// Reads a dimension by its lower-case name.
pub fn parse_dimension(value: &str) -> (res: Result<Dimension, String>)
    ensures
        dimension_named(value@) matches Some(d) ==> res == Ok::<Dimension, String>(d),
        dimension_named(value@) is None ==> (res matches Err(msg) && msg@
            == "dimension must be one of: overworld, nether, end"@),
{
    if same_text(value, "overworld") {
        Ok(Dimension::Overworld)
    } else if same_text(value, "nether") {
        Ok(Dimension::Nether)
    } else if same_text(value, "end") {
        Ok(Dimension::End)
    } else {
        Err("dimension must be one of: overworld, nether, end".to_owned())
    }
}

/// Why a typed code is refused.
#[derive(Debug, Clone, Copy, PartialEq, Eq, Structural)]
pub enum CodeInputError {
    /// Nothing but whitespace was typed.
    Empty,
    /// The character at `position` (counted from 1, whitespace left out) is neither `0` nor `1`.
    InvalidChar { position: usize, ch: char },
}

/// Whether a character is a digit of a code.
pub open spec fn is_bit_char(c: char) -> bool {
    c == '0' || c == '1'
}

/// Whether a text, whitespace left out, is a code: one or more `0` and `1`.
pub open spec fn is_code_text(s: Seq<char>) -> bool {
    let c = remove_ws(s);
    c.len() > 0 && forall|i: int| 0 <= i < c.len() ==> is_bit_char(#[trigger] c[i])
}

/// Reads a code typed as `0` and `1`, whitespace anywhere being left out.
pub fn parse_code_input(input: &str) -> (res: Result<TNTNumCode, CodeInputError>)
    ensures
        res == Err::<TNTNumCode, CodeInputError>(CodeInputError::Empty) <==> remove_ws(input@).len()
            == 0,
        res is Ok <==> is_code_text(input@),
        res matches Ok(code) ==> {
            let c = remove_ws(input@);
            &&& code.0@.len() == c.len()
            &&& forall|i: int| 0 <= i < c.len() ==> #[trigger] code.0@[i] == (c[i] == '1')
        },
        res matches Err(CodeInputError::InvalidChar { position, ch }) ==> {
            let c = remove_ws(input@);
            &&& 1 <= position <= c.len()
            &&& c[position - 1] == ch
            &&& !is_bit_char(ch)
            &&& forall|k: int| 0 <= k < position - 1 ==> is_bit_char(#[trigger] c[k])
        },
{
    let chars = chars_of(input);
    let compact = without_whitespace(&chars);
    let ghost c = remove_ws(input@);
    if compact.len() == 0 {
        return Err(CodeInputError::Empty);
    }
    let mut bits: Vec<bool> = Vec::new();
    let mut i: usize = 0;
    while i < compact.len()
        invariant
            compact@ == c,
            c == remove_ws(input@),
            c.len() > 0,
            i <= c.len(),
            bits@.len() == i,
            forall|k: int| 0 <= k < i ==> is_bit_char(#[trigger] c[k]),
            forall|k: int| 0 <= k < i ==> #[trigger] bits@[k] == (c[k] == '1'),
        decreases c.len() - i,
    {
        let ch = compact[i];
        if ch == '0' {
            bits.push(false);
        } else if ch == '1' {
            bits.push(true);
        } else {
            let res = Err(CodeInputError::InvalidChar { position: i + 1, ch });
            assert(!is_code_text(input@)) by {
                assert(!is_bit_char(c[i as int]));
            }
            return res;
        }
        i = i + 1;
    }
    Ok(TNTNumCode(bits))
}

impl CodeInputError {
    /// How the command line shows the error.
    pub open spec fn spec_message(self) -> Seq<char> {
        match self {
            CodeInputError::Empty => "code cannot be empty"@,
            CodeInputError::InvalidChar { position, ch } => "invalid code char at position "@
                + decimal(position as nat) + ": '"@ + seq![ch] + "'"@,
        }
    }

    /// How the command line shows the error.
    pub fn message(&self) -> (s: String)
        ensures
            s@ == self.spec_message(),
    {
        match *self {
            CodeInputError::Empty => "code cannot be empty".to_owned(),
            CodeInputError::InvalidChar { position, ch } => {
                let mut s = "invalid code char at position ".to_owned();
                push_usize(&mut s, position);
                append_str(&mut s, ": '");
                append_char(&mut s, ch);
                append_str(&mut s, "'");
                s
            },
        }
    }

    /// The key under which the form shows the error: `code-empty`, or `code-invalid-char:`,
    /// the position and the character, separated by `:`.
    pub open spec fn spec_key(self) -> Seq<char> {
        match self {
            CodeInputError::Empty => "code-empty"@,
            CodeInputError::InvalidChar { position, ch } => "code-invalid-char:"@ + decimal(
                position as nat,
            ) + ":"@ + seq![ch],
        }
    }

    /// The key under which the form shows the error.
    pub fn key(&self) -> (s: String)
        ensures
            s@ == self.spec_key(),
    {
        match *self {
            CodeInputError::Empty => "code-empty".to_owned(),
            CodeInputError::InvalidChar { position, ch } => {
                let mut s = "code-invalid-char:".to_owned();
                push_usize(&mut s, position);
                append_str(&mut s, ":");
                append_char(&mut s, ch);
                s
            },
        }
    }
}

/// What a form field was expected to hold.
#[derive(Debug, Clone, Copy, PartialEq, Eq, Structural)]
pub enum ParseType {
    U64,
    Usize,
    I64,
    F64,
}

impl ParseType {
    /// The word for what was expected: `integer` or `number`.
    pub open spec fn spec_as_str(self) -> Seq<char> {
        match self {
            ParseType::F64 => "number"@,
            _ => "integer"@,
        }
    }

    /// The word for what was expected: `integer` or `number`.
    pub fn as_str(self) -> (s: &'static str)
        ensures
            s@ == self.spec_as_str(),
    {
        match self {
            ParseType::U64 | ParseType::Usize | ParseType::I64 => "integer",
            ParseType::F64 => "number",
        }
    }

    /// The name of the expected type, with its article.
    pub open spec fn spec_kind_text(self) -> Seq<char> {
        match self {
            ParseType::U64 => "a u64"@,
            ParseType::Usize => "a usize"@,
            ParseType::I64 => "an i64"@,
            ParseType::F64 => "a f64"@,
        }
    }

    /// The name of the expected type, with its article.
    pub fn kind_text(self) -> (s: &'static str)
        ensures
            s@ == self.spec_kind_text(),
    {
        match self {
            ParseType::U64 => "a u64",
            ParseType::Usize => "a usize",
            ParseType::I64 => "an i64",
            ParseType::F64 => "a f64",
        }
    }
}

/// A form field that does not hold what it should.
#[derive(Debug, Clone)]
pub struct ParseError {
    pub name: String,
    pub expected: ParseType,
}

impl ParseError {
    /// The error shown as `<field> must be <type>`.
    pub fn message(&self) -> (s: String)
        ensures
            s@ == self.name@ + " must be "@ + self.expected.spec_kind_text(),
    {
        let mut s = self.name.clone();
        append_str(&mut s, " must be ");
        append_str(&mut s, self.expected.kind_text());
        s
    }
}

fn field_error(name: &str, expected: ParseType) -> (e: ParseError)
    ensures
        e.name@ == name@,
        e.expected == expected,
{
    ParseError { name: name.to_owned(), expected }
}

/// Reads a field holding an unsigned 64-bit integer, whitespace around it left out.
pub fn parse_required_u64(value: &str, name: &str) -> (res: Result<u64, ParseError>)
    ensures
        res is Err <==> parse_unsigned(trim(value@), u64::MAX as int) is None,
        res matches Ok(v) ==> parse_unsigned(trim(value@), u64::MAX as int) == Some(v as int),
        res matches Err(e) ==> e.name@ == name@ && e.expected == ParseType::U64,
{
    let t = trimmed_chars(value);
    match read_unsigned(&t, u64::MAX) {
        Some(v) => Ok(v),
        None => Err(field_error(name, ParseType::U64)),
    }
}

/// Reads a field holding an unsigned machine-sized integer, whitespace around it left out.
pub fn parse_required_usize(value: &str, name: &str) -> (res: Result<usize, ParseError>)
    ensures
        res is Err <==> parse_unsigned(trim(value@), usize::MAX as int) is None,
        res matches Ok(v) ==> parse_unsigned(trim(value@), usize::MAX as int) == Some(v as int),
        res matches Err(e) ==> e.name@ == name@ && e.expected == ParseType::Usize,
{
    let t = trimmed_chars(value);
    match read_unsigned(&t, usize::MAX as u64) {
        Some(v) => Ok(v as usize),
        None => Err(field_error(name, ParseType::Usize)),
    }
}

/// Reads a field holding a signed 64-bit integer, whitespace around it left out.
pub fn parse_required_i64(value: &str, name: &str) -> (res: Result<i64, ParseError>)
    ensures
        res is Err <==> parse_signed(trim(value@), i64::MIN as int, i64::MAX as int) is None,
        res matches Ok(v) ==> parse_signed(trim(value@), i64::MIN as int, i64::MAX as int) == Some(
            v as int,
        ),
        res matches Err(e) ==> e.name@ == name@ && e.expected == ParseType::I64,
{
    let t = trimmed_chars(value);
    match read_i64(&t) {
        Some(v) => Ok(v),
        None => Err(field_error(name, ParseType::I64)),
    }
}

/// Reads a field that may be left blank, or holds an unsigned 64-bit integer.
pub fn parse_optional_u64(value: &str, name: &str) -> (res: Result<Option<u64>, ParseError>)
    ensures
        trim(value@).len() == 0 ==> res == Ok::<Option<u64>, ParseError>(None),
        trim(value@).len() > 0 ==> {
            &&& res is Err <==> parse_unsigned(trim(value@), u64::MAX as int) is None
            &&& res matches Ok(o) ==> (o matches Some(v) && parse_unsigned(
                trim(value@),
                u64::MAX as int,
            ) == Some(v as int))
        },
        res matches Err(e) ==> e.name@ == name@ && e.expected == ParseType::U64,
{
    let t = trimmed_chars(value);
    if t.len() == 0 {
        return Ok(None);
    }
    match read_unsigned(&t, u64::MAX) {
        Some(v) => Ok(Some(v)),
        None => Err(field_error(name, ParseType::U64)),
    }
}

/// Reads a field that may be left blank, or holds an unsigned machine-sized integer.
pub fn parse_optional_usize(value: &str, name: &str) -> (res: Result<Option<usize>, ParseError>)
    ensures
        trim(value@).len() == 0 ==> res == Ok::<Option<usize>, ParseError>(None),
        trim(value@).len() > 0 ==> {
            &&& res is Err <==> parse_unsigned(trim(value@), usize::MAX as int) is None
            &&& res matches Ok(o) ==> (o matches Some(v) && parse_unsigned(
                trim(value@),
                usize::MAX as int,
            ) == Some(v as int))
        },
        res matches Err(e) ==> e.name@ == name@ && e.expected == ParseType::Usize,
{
    let t = trimmed_chars(value);
    if t.len() == 0 {
        return Ok(None);
    }
    match read_unsigned(&t, usize::MAX as u64) {
        Some(v) => Ok(Some(v as usize)),
        None => Err(field_error(name, ParseType::Usize)),
    }
}

/// Takes all whitespace out of a form field.
pub fn normalize_compact(value: &mut String)
    ensures
        final(value)@ == remove_ws(old(value)@),
{
    let chars = chars_of(value.as_str());
    let kept = without_whitespace(&chars);
    *value = string_of(&kept);
}

/// Whether a text ends in `.json`.
pub open spec fn has_json_suffix(s: Seq<char>) -> bool {
    s.len() >= 5 && s.subrange(s.len() - 5, s.len() as int) == ".json"@
}

/// The file name under which a config is stored: the name without surrounding whitespace,
/// with `.json` added unless it ends so already; empty when nothing but whitespace was given.
pub open spec fn config_file_name(name: Seq<char>) -> Seq<char> {
    let t = trim(name);
    if has_json_suffix(t) {
        t
    } else if t.len() == 0 {
        t
    } else {
        t + ".json"@
    }
}

/// The file name under which a config is stored.
pub fn normalize_config_name(name: &str) -> (s: String)
    ensures
        s@ == config_file_name(name@),
{
    let t = trimmed_chars(name);
    let n = t.len();
    let suffix = chars_of(".json");
    proof {
        reveal_strlit(".json");
    }
    assert(suffix@.len() == 5);
    let mut ends = n >= 5;
    if ends {
        let mut k: usize = 0;
        while k < 5
            invariant
                n == t@.len(),
                n >= 5,
                suffix@ == ".json"@,
                suffix@.len() == 5,
                k <= 5,
                ends <==> forall|j: int| 0 <= j < k ==> t@[n - 5 + j] == suffix@[j],
            decreases 5 - k,
        {
            if t[n - 5 + k] != suffix[k] {
                ends = false;
            }
            k = k + 1;
        }
        assert(ends <==> t@.subrange(n - 5, n as int) =~= ".json"@);
    }
    let mut s = string_of(&t);
    if !ends && n > 0 {
        append_str(&mut s, ".json");
    }
    s
}

/// Accepts a config file of the one version this calculator reads.
pub fn check_config_version(version: u64) -> (res: Result<(), PearlError>)
    ensures
        version == 1 ==> res is Ok,
        version != 1 ==> res == Err::<(), PearlError>(PearlError::UnsupportedConfigVersion(version)),
{
    if version == 1 {
        Ok(())
    } else {
        Err(PearlError::UnsupportedConfigVersion(version))
    }
}

/// A config name, once made a file name, stays the same when made one again.
pub proof fn lemma_config_name_idempotent(name: Seq<char>)
    ensures
        config_file_name(config_file_name(name)) == config_file_name(name),
{
    let t = trim(name);
    lemma_trim_trimmed(name);
    lemma_trim_of_trimmed(t);
    if !has_json_suffix(t) && t.len() > 0 {
        reveal_strlit(".json");
        let u = t + ".json"@;
        assert(u[0] == t[0]);
        assert(u.last() == 'n');
        lemma_trim_of_trimmed(u);
        assert(u.subrange(u.len() - 5, u.len() as int) =~= ".json"@);
    }
}

/// A form field, once compacted, stays the same when compacted again.
pub proof fn lemma_compact_idempotent(value: Seq<char>)
    ensures
        remove_ws(remove_ws(value)) == remove_ws(value),
{
    lemma_remove_ws_idempotent(value);
}

} // verus!
