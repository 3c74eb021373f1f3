//! The entry attribute: which keys an entry point's attribute may have, and with
//! which values.
use vstd::prelude::*;

use crate::text;

verus! {

/// The value kinds that entry keys accept.
#[derive(Debug, Clone, Copy, PartialEq, Eq, Structural)]
pub enum EntryValueKind {
    /// A `true` / `false` literal, or no value.
    Bool,
    /// A string literal.
    Str,
    /// An expression that its consumer parses and validates itself.
    Expr,
}

/// What an argument's value is, as far as the attribute is concerned.
#[derive(Debug, Clone, Copy, PartialEq, Eq, Structural)]
pub enum EntryValue {
    BoolLiteral,
    StrLiteral,
    Other,
}

/// One argument of an entry attribute. A key is present where the path is a plain
/// identifier.
#[derive(Debug, PartialEq, Eq)]
pub enum EntryMeta {
    /// `key = value`.
    NameValue { key: Option<String>, value: EntryValue },
    /// A bare key.
    Path { key: Option<String> },
    /// `key(..)`.
    List,
}

/// Why an entry attribute is refused, and which argument is at fault.
#[derive(Debug, PartialEq, Eq)]
pub enum EntryFault {
    /// The arguments do not parse.
    Malformed { message: String },
    /// An argument in list form.
    ListArgument { index: usize },
    /// A key that is not a plain identifier.
    KeyPath { index: usize },
    /// A key that no one reads.
    UnknownKey { index: usize, key: String },
    /// A key that needs a value.
    MissingValue { index: usize, key: String },
    /// A boolean key with another value.
    NotBool { index: usize, key: String },
    /// A string key with another value.
    NotStr { index: usize, key: String },
}

/// The keys that are honored, with the value kind each expects.
pub open spec fn kind_of(key: Seq<char>) -> Option<EntryValueKind> {
    if key == "print_ir"@ {
        Some(EntryValueKind::Bool)
    } else if key == "dump_mlir_dir"@ {
        Some(EntryValueKind::Str)
    } else if key == "unchecked_accesses"@ {
        Some(EntryValueKind::Bool)
    } else if key == "deny_in_kernel_checks"@ {
        Some(EntryValueKind::Bool)
    } else if key == "preconditions"@ {
        Some(EntryValueKind::Expr)
    } else if key == "optimization_hints"@ {
        Some(EntryValueKind::Expr)
    } else {
        None
    }
}

/// The value kind that a key expects, if it is honored.
pub fn entry_key_kind(key: &str) -> (r: Option<EntryValueKind>)
    ensures
        r == kind_of(key@),
{
    if text::same_text(key, "print_ir") {
        Some(EntryValueKind::Bool)
    } else if text::same_text(key, "dump_mlir_dir") {
        Some(EntryValueKind::Str)
    } else if text::same_text(key, "unchecked_accesses") {
        Some(EntryValueKind::Bool)
    } else if text::same_text(key, "deny_in_kernel_checks") {
        Some(EntryValueKind::Bool)
    } else if text::same_text(key, "preconditions") {
        Some(EntryValueKind::Expr)
    } else if text::same_text(key, "optimization_hints") {
        Some(EntryValueKind::Expr)
    } else {
        None
    }
}

/// A key of some kind accepts a value, or none.
pub open spec fn value_fits(kind: EntryValueKind, value: Option<EntryValue>) -> bool {
    match (kind, value) {
        (EntryValueKind::Bool, None) => true,
        (_, None) => false,
        (EntryValueKind::Bool, Some(v)) => v == EntryValue::BoolLiteral,
        (EntryValueKind::Str, Some(v)) => v == EntryValue::StrLiteral,
        (EntryValueKind::Expr, Some(_)) => true,
    }
}

impl EntryMeta {
    pub open spec fn key_of(self) -> Option<String> {
        match self {
            EntryMeta::NameValue { key, .. } => key,
            EntryMeta::Path { key } => key,
            EntryMeta::List => None,
        }
    }

    pub open spec fn value_of(self) -> Option<EntryValue> {
        match self {
            EntryMeta::NameValue { value, .. } => Some(value),
            _ => None,
        }
    }

    /// The argument is a known key with a value of its kind.
    pub open spec fn accepted(self) -> bool {
        &&& self.key_of() is Some
        &&& kind_of(self.key_of()->0@) is Some
        &&& value_fits(kind_of(self.key_of()->0@)->0, self.value_of())
    }

    /// Why the argument at `i` is refused.
    pub open spec fn refused(self, i: int, fault: EntryFault) -> bool {
        match self {
            EntryMeta::List => fault == (EntryFault::ListArgument { index: i as usize }),
            _ => match self.key_of() {
                None => fault == (EntryFault::KeyPath { index: i as usize }),
                Some(k) => match (kind_of(k@), self.value_of()) {
                    (None, _) => fault matches EntryFault::UnknownKey { index, key } && index == i
                        && key@ == k@,
                    (Some(_), None) => fault matches EntryFault::MissingValue { index, key }
                        && index == i && key@ == k@,
                    (Some(EntryValueKind::Bool), Some(_)) => fault matches EntryFault::NotBool {
                        index,
                        key,
                    } && index == i && key@ == k@,
                    (Some(_), Some(_)) => fault matches EntryFault::NotStr { index, key } && index
                        == i && key@ == k@,
                },
            },
        }
    }
}

/// Checks one argument of an entry attribute.
fn check_meta(meta: &EntryMeta, i: usize) -> (r: Result<(), EntryFault>)
    ensures
        match r {
            Ok(()) => meta.accepted(),
            Err(fault) => !meta.accepted() && meta.refused(i as int, fault),
        },
{
    let (key, value) = match meta {
        EntryMeta::NameValue { key, value } => (key, Some(*value)),
        EntryMeta::Path { key } => (key, None),
        EntryMeta::List => {
            return Err(EntryFault::ListArgument { index: i });
        },
    };
    let key = match key {
        Some(key) => key,
        None => {
            return Err(EntryFault::KeyPath { index: i });
        },
    };
    let kind = match entry_key_kind(key.as_str()) {
        Some(kind) => kind,
        None => {
            return Err(EntryFault::UnknownKey { index: i, key: key.clone() });
        },
    };
    let value = match value {
        Some(value) => value,
        None => {
            if kind == EntryValueKind::Bool {
                return Ok(());
            }
            return Err(EntryFault::MissingValue { index: i, key: key.clone() });
        },
    };
    match kind {
        EntryValueKind::Bool => if value == EntryValue::BoolLiteral {
            Ok(())
        } else {
            Err(EntryFault::NotBool { index: i, key: key.clone() })
        },
        EntryValueKind::Str => if value == EntryValue::StrLiteral {
            Ok(())
        } else {
            Err(EntryFault::NotStr { index: i, key: key.clone() })
        },
        EntryValueKind::Expr => Ok(()),
    }
}

/// The arguments of an entry attribute as they were parsed: none for a function
/// without one and for the bare form.
#[derive(Debug)]
pub enum EntryArgs {
    Absent,
    Unparsed { message: String },
    Parsed { metas: Vec<EntryMeta> },
}

impl EntryArgs {
    /// Every argument is accepted.
    pub open spec fn accepted(self) -> bool {
        match self {
            EntryArgs::Absent => true,
            EntryArgs::Unparsed { .. } => false,
            EntryArgs::Parsed { metas } => forall|i: int|
                0 <= i < metas@.len() ==> (#[trigger] metas@[i]).accepted(),
        }
    }

    /// The attribute is refused: the arguments do not parse, or the first refused
    /// argument is at fault.
    pub open spec fn refused(self, fault: EntryFault) -> bool {
        match self {
            EntryArgs::Absent => false,
            EntryArgs::Unparsed { message } => fault matches EntryFault::Malformed { message: m }
                && m@ == message@,
            EntryArgs::Parsed { metas } => exists|i: int| first_refused(metas@, i, fault),
        }
    }
}

/// The argument at `i` is the first that is refused, on account of `fault`.
pub open spec fn first_refused(metas: Seq<EntryMeta>, i: int, fault: EntryFault) -> bool {
    &&& 0 <= i < metas.len()
    &&& !metas[i].accepted()
    &&& metas[i].refused(i, fault)
    &&& forall|k: int| 0 <= k < i ==> (#[trigger] metas[k]).accepted()
}

/// Checks the arguments of an entry attribute: each is a known key, with a value
/// of the kind that the key expects.
pub fn validate_entry_attribute(args: &EntryArgs) -> (r: Result<(), EntryFault>)
    ensures
        match r {
            Ok(()) => args.accepted(),
            Err(fault) => args.refused(fault),
        },
{
    match args {
        EntryArgs::Absent => Ok(()),
        EntryArgs::Unparsed { message } => Err(EntryFault::Malformed { message: message.clone() }),
        EntryArgs::Parsed { metas } => check_metas(metas),
    }
}

/// Checks the arguments in order, up to the first that is refused.
fn check_metas(metas: &Vec<EntryMeta>) -> (r: Result<(), EntryFault>)
    ensures
        match r {
            Ok(()) => forall|i: int| 0 <= i < metas@.len() ==> (#[trigger] metas@[i]).accepted(),
            Err(fault) => exists|i: int| first_refused(metas@, i, fault),
        },
{
    let mut i: usize = 0;
    while i < metas.len()
        invariant
            i <= metas.len(),
            forall|k: int| 0 <= k < i ==> (#[trigger] metas@[k]).accepted(),
        decreases metas.len() - i,
    {
        match check_meta(&metas[i], i) {
            Ok(()) => {},
            Err(fault) => {
                assert(first_refused(metas@, i as int, fault));
                return Err(fault);
            },
        }
        i += 1;
    }
    Ok(())
}

impl EntryFault {
    /// The text the fault is reported with.
    pub open spec fn text(self) -> Seq<char> {
        match self {
            EntryFault::Malformed { message } => "malformed `#[cutile::entry(..)]` arguments: "@
                + message@,
            EntryFault::ListArgument { .. } =>
                "`#[cutile::entry(..)]` arguments must be `key = value` pairs or bare boolean keys"@,
            EntryFault::KeyPath { .. } =>
                "`#[cutile::entry(..)]` keys must be plain identifiers"@,
            EntryFault::UnknownKey { key, .. } => "unknown `#[cutile::entry]` key `"@ + key@
                + "`; expected one of `print_ir`, `dump_mlir_dir`, `unchecked_accesses`, `deny_in_kernel_checks`, `preconditions`, `optimization_hints`"@,
            EntryFault::MissingValue { key, .. } => "`"@ + key@ + "` requires a value (`"@ + key@
                + " = ...`)"@,
            EntryFault::NotBool { key, .. } => "`"@ + key@
                + "` expects a boolean literal (`true` or `false`)"@,
            EntryFault::NotStr { key, .. } => "`"@ + key@ + "` expects a string literal"@,
        }
    }

    /// The text the fault is reported with.
    pub fn to_string(&self) -> (r: String)
        ensures
            r@ == self.text(),
    {
        let mut out = String::new();
        match self {
            EntryFault::Malformed { message } => {
                out.append("malformed `#[cutile::entry(..)]` arguments: ");
                out.append(message.as_str());
            },
            EntryFault::ListArgument { .. } => {
                out.append(
                    "`#[cutile::entry(..)]` arguments must be `key = value` pairs or bare boolean keys",
                );
            },
            EntryFault::KeyPath { .. } => {
                out.append("`#[cutile::entry(..)]` keys must be plain identifiers");
            },
            EntryFault::UnknownKey { key, .. } => {
                out.append("unknown `#[cutile::entry]` key `");
                out.append(key.as_str());
                out.append(
                    "`; expected one of `print_ir`, `dump_mlir_dir`, `unchecked_accesses`, `deny_in_kernel_checks`, `preconditions`, `optimization_hints`",
                );
            },
            EntryFault::MissingValue { key, .. } => {
                out.append("`");
                out.append(key.as_str());
                out.append("` requires a value (`");
                out.append(key.as_str());
                out.append(" = ...`)");
            },
            EntryFault::NotBool { key, .. } => {
                out.append("`");
                out.append(key.as_str());
                out.append("` expects a boolean literal (`true` or `false`)");
            },
            EntryFault::NotStr { key, .. } => {
                out.append("`");
                out.append(key.as_str());
                out.append("` expects a string literal");
            },
        }
        assert(out@ =~= self.text());
        out
    }
}

/// The honored keys are told apart: three are flags, one is a text, and two are left to
/// whoever reads them.
pub proof fn every_honored_key_has_one_kind(key: Seq<char>)
    ensures
        kind_of(key) == Some(EntryValueKind::Bool) <==> key == "print_ir"@ || key
            == "unchecked_accesses"@ || key == "deny_in_kernel_checks"@,
        kind_of(key) == Some(EntryValueKind::Str) <==> key == "dump_mlir_dir"@,
        kind_of(key) == Some(EntryValueKind::Expr) <==> key == "preconditions"@ || key
            == "optimization_hints"@,
{
    reveal_strlit("print_ir");
    reveal_strlit("dump_mlir_dir");
    reveal_strlit("unchecked_accesses");
    reveal_strlit("deny_in_kernel_checks");
    reveal_strlit("preconditions");
    reveal_strlit("optimization_hints");
    assert("print_ir"@.len() == 8 && "deny_in_kernel_checks"@.len() == 21);
    assert("dump_mlir_dir"@.len() == 13 && "preconditions"@.len() == 13);
    assert("unchecked_accesses"@.len() == 18 && "optimization_hints"@.len() == 18);
    assert("dump_mlir_dir"@[0] != "preconditions"@[0]);
    assert("unchecked_accesses"@[0] != "optimization_hints"@[0]);
    assert("unchecked_accesses"@ != "optimization_hints"@);
    assert("dump_mlir_dir"@ != "preconditions"@);
}

/// An argument is accepted exactly in these forms: a flag's key alone or with a boolean,
/// the text's key with a string, one of the other two keys with any value.
pub proof fn an_argument_is_accepted_with_a_value_of_its_kind(key: String, value: EntryValue)
    ensures
        (EntryMeta::NameValue { key: Some(key), value }).accepted() <==> ((key@ == "print_ir"@
            || key@ == "unchecked_accesses"@ || key@ == "deny_in_kernel_checks"@)
            && value is BoolLiteral) || (key@ == "dump_mlir_dir"@ && value is StrLiteral) || key@
            == "preconditions"@ || key@ == "optimization_hints"@,
        (EntryMeta::Path { key: Some(key) }).accepted() <==> key@ == "print_ir"@ || key@
            == "unchecked_accesses"@ || key@ == "deny_in_kernel_checks"@,
        !(EntryMeta::NameValue { key: None, value }).accepted(),
        !(EntryMeta::Path { key: None }).accepted(),
        !EntryMeta::List.accepted(),
{
    every_honored_key_has_one_kind(key@);
}

/// A refusal says what is wrong with the argument at its index.
pub proof fn a_refusal_says_what_is_wrong(meta: EntryMeta, i: int, fault: EntryFault)
    requires
        !meta.accepted(),
        meta.refused(i, fault),
        0 <= i <= usize::MAX,
    ensures
        match fault {
            EntryFault::Malformed { .. } => false,
            EntryFault::ListArgument { index } => index == i && meta is List,
            EntryFault::KeyPath { index } => index == i && (meta matches EntryMeta::NameValue {
                key: None,
                ..
            } || meta matches EntryMeta::Path { key: None }),
            EntryFault::UnknownKey { index, key } => index == i && kind_of(key@) is None,
            EntryFault::MissingValue { index, key } => index == i && meta is Path && (key@
                == "dump_mlir_dir"@ || key@ == "preconditions"@ || key@ == "optimization_hints"@),
            EntryFault::NotBool { index, key } => index == i && (meta matches EntryMeta::NameValue {
                value,
                ..
            } && !(value is BoolLiteral)) && (key@ == "print_ir"@ || key@ == "unchecked_accesses"@
                || key@ == "deny_in_kernel_checks"@),
            EntryFault::NotStr { index, key } => index == i && (meta matches EntryMeta::NameValue {
                value,
                ..
            } && !(value is StrLiteral)) && key@ == "dump_mlir_dir"@,
        },
{
    if meta.key_of() is Some {
        every_honored_key_has_one_kind(meta.key_of()->0@);
    }
}

/// An attribute is refused only where it is not accepted; the fault is that of its
/// first refused argument. Without arguments it is accepted, and one that does not parse
/// never is.
pub proof fn an_attribute_is_as_good_as_its_arguments(args: EntryArgs, fault: EntryFault)
    ensures
        args.refused(fault) ==> !args.accepted(),
        args is Absent ==> args.accepted(),
        args is Unparsed ==> !args.accepted(),
        args matches EntryArgs::Parsed { metas } ==> (args.accepted() <==> forall|i: int|
            0 <= i < metas@.len() ==> (#[trigger] metas@[i]).accepted()) && (args.refused(fault)
            ==> exists|i: int|
            0 <= i < metas@.len() && !(#[trigger] metas@[i]).accepted() && metas@[i].refused(
                i,
                fault,
            ) && forall|k: int| 0 <= k < i ==> (#[trigger] metas@[k]).accepted()),
{
    if args is Parsed && args.refused(fault) {
        let metas = args->metas@;
        let i = choose|i: int| first_refused(metas, i, fault);
        assert(!metas[i].accepted());
    }
}

/// A fault is reported by its sentence, with the key it is about.
pub proof fn entry_faults_name_their_key(index: usize, key: String, message: String)
    ensures
        (EntryFault::Malformed { message }).text()
            == "malformed `#[cutile::entry(..)]` arguments: "@ + message@,
        (EntryFault::ListArgument { index }).text()
            == "`#[cutile::entry(..)]` arguments must be `key = value` pairs or bare boolean keys"@,
        (EntryFault::KeyPath { index }).text()
            == "`#[cutile::entry(..)]` keys must be plain identifiers"@,
        (EntryFault::UnknownKey { index, key }).text() == "unknown `#[cutile::entry]` key `"@ + key@
            + "`; expected one of `print_ir`, `dump_mlir_dir`, `unchecked_accesses`, `deny_in_kernel_checks`, `preconditions`, `optimization_hints`"@,
        (EntryFault::MissingValue { index, key }).text() == "`"@ + key@ + "` requires a value (`"@
            + key@ + " = ...`)"@,
        (EntryFault::NotBool { index, key }).text() == "`"@ + key@
            + "` expects a boolean literal (`true` or `false`)"@,
        (EntryFault::NotStr { index, key }).text() == "`"@ + key@ + "` expects a string literal"@,
{
}

} // verus!
