//! The documents of the interfaces that a source file declares.

use vstd::prelude::*;
use crate::mdbook::svpar::SyntaxTree;
use crate::mdbook::units::{
    docs_result,
    extract_units,
    file_docs,
    print_heading,
    unit_heading,
    ExtractError,
    UnitDocs,
    UnitKind,
};

verus! {

/// Writes the documents of the interfaces that the file `file_path` declares.
/// `parsed` is the syntax tree of the file, or `None` where the file could
/// not be parsed: such a file gives no documents.
pub fn generate_sv_interface_info(file_path: &str, parsed: Option<&SyntaxTree>) -> (docs: Result<
    UnitDocs,
    ExtractError,
>)
    ensures
        docs_result(docs) == file_docs(
            match parsed {
                Some(tree) => Some(tree@),
                None => None,
            },
            UnitKind::Interface,
            file_path@,
        ),
{
    extract_units(parsed, UnitKind::Interface, file_path)
}

/// Writes the document of the interface `iface_name` of the file `file_path`.
pub fn print_iface(iface_name: &str, file_path: &str) -> (text: String)
    ensures
        text@ == unit_heading(UnitKind::Interface, iface_name@, file_path@),
{
    print_heading(UnitKind::Interface, iface_name, file_path)
}

} // verus!
