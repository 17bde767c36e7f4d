//! The text of signature errors: which type was expected, which permission
//! is missing, which slot found no argument.
use crate::lex::Lex;
use crate::lex::LexModel;
use crate::types::AccessMode;
use crate::types::SigError;
use crate::types::SigItem;
use crate::types::TypeP;
use crate::types::INDEX_FLAG;
use crate::types::OUTPUT_FLAG;
use crate::types::RAW_FLAG;
use crate::types::READ_FLAG;
use crate::types::RwT;
use crate::types::UNIQUE_FLAG;
use crate::types::WRITE_FLAG;
use vstd::prelude::*;
use vstd::string::StringExecFns;

verus! {

/// The name of the type `t` as text, or a question mark where the type is
/// not in the arena or its name is no text.
pub open spec fn type_text(m: LexModel, t: TypeP) -> Seq<char> {
    if t < m.types.len() && m.types[t as int].name.0.within(m.names.len())
        && vstd::utf8::valid_utf8(m.types[t as int].name.0.of(m.names)) {
        vstd::utf8::decode_utf8(m.types[t as int].name.0.of(m.names))
    } else {
        "?"@
    }
}

/// The name of the type `t` as text.
pub fn type_name_text(lex: &Lex, t: TypeP) -> (s: &str)
    ensures
        s@ == type_text(lex@, t),
{
    match lex.type_at(t) {
        Some(ty) => match lex.name_text(&ty.name) {
            Some(s) => {
                proof {
                    vstd::utf8::encode_utf8_decode_utf8(s@);
                }
                s
            },
            None => "?",
        },
        None => "?",
    }
}

/// `lead`, then the label where the bit is set in `bits`, with a comma and a
/// space before it where `lead` is not empty.
pub open spec fn with_label(lead: Seq<char>, bits: RwT, flag: RwT, label: Seq<char>) -> Seq<
    char,
> {
    if bits & flag == 0 {
        lead
    } else if lead.len() == 0 {
        label
    } else {
        lead + ", "@ + label
    }
}

/// The permissions that are set, by name, with a comma and a space between
/// one and the next.
pub open spec fn flags_text(bits: RwT) -> Seq<char> {
    with_label(
        with_label(
            with_label(
                with_label(
                    with_label(
                        with_label(Seq::empty(), bits, READ_FLAG, "read"@),
                        bits,
                        WRITE_FLAG,
                        "write"@,
                    ),
                    bits,
                    UNIQUE_FLAG,
                    "unique"@,
                ),
                bits,
                OUTPUT_FLAG,
                "output"@,
            ),
            bits,
            RAW_FLAG,
            "raw"@,
        ),
        bits,
        INDEX_FLAG,
        "index"@,
    )
}

/// A signature slot as text: the name of its type, then its permissions in
/// square brackets.
pub open spec fn item_text(item: SigItem, m: LexModel) -> Seq<char> {
    type_text(m, item.tp) + " ["@ + flags_text(item.permissions) + "]"@
}

/// A line that says what was expected and what was found.
pub open spec fn mismatch_line(expected: Seq<char>, actual: Seq<char>) -> Seq<char> {
    "  - expected "@ + expected + ", but got "@ + actual + "\n"@
}

/// The line for a missing permission, or nothing where the bit does not
/// clash.
pub open spec fn missing_line(clash: RwT, flag: RwT, line: Seq<char>) -> Seq<char> {
    if clash & flag != 0 {
        line
    } else {
        Seq::empty()
    }
}

/// The line for a slot that is an output where an input was expected, or the
/// other way round.
pub open spec fn direction_line(clash: RwT, have: RwT) -> Seq<char> {
    if clash & OUTPUT_FLAG == 0 {
        Seq::empty()
    } else if have & OUTPUT_FLAG != 0 {
        mismatch_line("input"@, "output"@)
    } else {
        mismatch_line("output"@, "input"@)
    }
}

/// The line for a value that is passed in another way than expected.
pub open spec fn access_line(clash: RwT, have: RwT) -> Seq<char> {
    if clash & (RAW_FLAG | INDEX_FLAG) != 0 && AccessMode::spec_from_bits(clash)
        != AccessMode::spec_from_bits(have) {
        mismatch_line(
            AccessMode::spec_from_bits(clash).spec_name(),
            AccessMode::spec_from_bits(have).spec_name(),
        )
    } else {
        Seq::empty()
    }
}

/// A signature error as text.
pub open spec fn error_text(e: SigError, m: LexModel) -> Seq<char> {
    match e {
        SigError::WrongType { found, wanted } => mismatch_line(
            type_text(m, wanted),
            type_text(m, found),
        ),
        SigError::NeedsUnique =>
            "Cannot borrow: value is already borrowed (requires unique access)"@,
        SigError::AlreadyBorrowed => "Cannot borrow: value is currently borrowed as unique"@,
        SigError::BasicSigError { clash, have } => "Signature mismatch:\n"@ + missing_line(
            clash,
            READ_FLAG,
            "  - expected read access, but it's missing\n"@,
        ) + missing_line(clash, WRITE_FLAG, "  - expected write access, but it's missing\n"@)
            + missing_line(clash, UNIQUE_FLAG, "  - expected unique access, but it's missing\n"@)
            + direction_line(clash, have) + access_line(clash, have),
        SigError::MissingArgument(item) => "Missing an argument of type "@ + item_text(item, m),
    }
}

/// Appends the label where the bit is set.
fn add_label(flags: &mut String, bits: RwT, flag: RwT, label: &str)
    ensures
        final(flags)@ == with_label(old(flags)@, bits, flag, label@),
{
    if bits & flag != 0 {
        if !flags.as_str().is_empty() {
            flags.append(", ");
        }
        flags.append(label);
        assert(flags@ =~= with_label(old(flags)@, bits, flag, label@));
    }
}

/// Appends a line that says what was expected and what was found.
fn add_mismatch(out: &mut String, expected: &str, actual: &str)
    ensures
        final(out)@ == old(out)@ + mismatch_line(expected@, actual@),
{
    out.append("  - expected ");
    out.append(expected);
    out.append(", but got ");
    out.append(actual);
    out.append("\n");
    assert(out@ =~= old(out)@ + mismatch_line(expected@, actual@));
}

/// Appends the line for a missing permission where the bit clashes.
fn add_missing(out: &mut String, clash: RwT, flag: RwT, line: &str)
    ensures
        final(out)@ == old(out)@ + missing_line(clash, flag, line@),
{
    if clash & flag != 0 {
        out.append(line);
    } else {
        assert(out@ =~= old(out)@ + Seq::<char>::empty());
    }
}

impl SigItem {
    /// The slot as text: the name of its type, then its permissions in
    /// square brackets.
    pub fn describe(&self, lex: &Lex) -> (s: String)
        ensures
            s@ == item_text(*self, lex@),
    {
        let mut flags = String::new();
        add_label(&mut flags, self.permissions, READ_FLAG, "read");
        add_label(&mut flags, self.permissions, WRITE_FLAG, "write");
        add_label(&mut flags, self.permissions, UNIQUE_FLAG, "unique");
        add_label(&mut flags, self.permissions, OUTPUT_FLAG, "output");
        add_label(&mut flags, self.permissions, RAW_FLAG, "raw");
        add_label(&mut flags, self.permissions, INDEX_FLAG, "index");
        let mut out = String::new();
        out.append(type_name_text(lex, self.tp));
        out.append(" [");
        out.append(flags.as_str());
        out.append("]");
        assert(out@ =~= item_text(*self, lex@));
        out
    }
}

impl SigError {
    /// The error as text.
    pub fn message(&self, lex: &Lex) -> (s: String)
        ensures
            s@ == error_text(*self, lex@),
    {
        let mut out = String::new();
        match self {
            SigError::WrongType { found, wanted } => {
                add_mismatch(&mut out, type_name_text(lex, *wanted), type_name_text(lex, *found));
                assert(out@ =~= error_text(*self, lex@));
            },
            SigError::NeedsUnique => {
                out.append("Cannot borrow: value is already borrowed (requires unique access)");
                assert(out@ =~= error_text(*self, lex@));
            },
            SigError::AlreadyBorrowed => {
                out.append("Cannot borrow: value is currently borrowed as unique");
                assert(out@ =~= error_text(*self, lex@));
            },
            SigError::BasicSigError { clash, have } => {
                out.append("Signature mismatch:\n");
                add_missing(
                    &mut out,
                    *clash,
                    READ_FLAG,
                    "  - expected read access, but it's missing\n",
                );
                add_missing(
                    &mut out,
                    *clash,
                    WRITE_FLAG,
                    "  - expected write access, but it's missing\n",
                );
                add_missing(
                    &mut out,
                    *clash,
                    UNIQUE_FLAG,
                    "  - expected unique access, but it's missing\n",
                );
                if *clash & OUTPUT_FLAG != 0 {
                    if *have & OUTPUT_FLAG != 0 {
                        add_mismatch(&mut out, "input", "output");
                    } else {
                        add_mismatch(&mut out, "output", "input");
                    }
                }
                if (*clash & (RAW_FLAG | INDEX_FLAG)) != 0 {
                    let expected = AccessMode::from_bits(*clash);
                    let actual = AccessMode::from_bits(*have);
                    if !same_mode(expected, actual) {
                        add_mismatch(&mut out, expected.name(), actual.name());
                    }
                }
                assert(out@ =~= error_text(*self, lex@));
            },
            SigError::MissingArgument(item) => {
                out.append("Missing an argument of type ");
                let text = item.describe(lex);
                out.append(text.as_str());
                assert(out@ =~= error_text(*self, lex@));
            },
        }
        out
    }

    /// The error as the debugger shows it.
    pub fn debug_text(&self, lex: &Lex) -> (s: String)
        ensures
            s@ == "SigError(\""@ + error_text(*self, lex@) + "\")\n"@,
    {
        let mut out = String::new();
        out.append("SigError(\"");
        let text = self.message(lex);
        out.append(text.as_str());
        out.append("\")\n");
        assert(out@ =~= "SigError(\""@ + error_text(*self, lex@) + "\")\n"@);
        out
    }
}

/// Whether two modes are the same.
fn same_mode(a: AccessMode, b: AccessMode) -> (r: bool)
    ensures
        r == (a == b),
{
    match (a, b) {
        (AccessMode::Boxed, AccessMode::Boxed) => true,
        (AccessMode::Indexed, AccessMode::Indexed) => true,
        (AccessMode::Raw, AccessMode::Raw) => true,
        (AccessMode::Invalid, AccessMode::Invalid) => true,
        _ => false,
    }
}

} // verus!
