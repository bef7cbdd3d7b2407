//! Office documents (DOCX, ODT) converted by headless LibreOffice. The
//! conversion itself runs an external process; the library keeps the
//! adapter's routes and the export filter chosen for each target.
use vstd::prelude::*;
use crate::format::{format_name, Format};
use crate::text::string_views;
use std::path::PathBuf;
use crate::registry::{ConversionAdapter, Route};

verus! {

/// Office documents through headless LibreOffice (`soffice`).
pub struct LibreOfficeAdapter {
    /// Path of the `soffice` binary, found once when the adapter is made.
    binary: Option<PathBuf>,
}

pub open spec fn office_routes() -> Seq<Route> {
    seq![
        (Format::Docx, Format::Pdf),
        (Format::Odt, Format::Pdf),
        (Format::Docx, Format::PlainText),
        (Format::Odt, Format::PlainText),
        (Format::Docx, Format::Odt),
        (Format::Odt, Format::Docx)
    ]
}

impl ConversionAdapter for LibreOfficeAdapter {
    open spec fn spec_name(&self) -> Seq<char> {
        "libreoffice-headless"@
    }

    open spec fn spec_routes(&self) -> Seq<Route> {
        office_routes()
    }

    fn name(&self) -> (r: &'static str) {
        "libreoffice-headless"
    }

    fn supported_routes(&self) -> (r: Vec<Route>) {
        let r = vec![
            (Format::Docx, Format::Pdf),
            (Format::Odt, Format::Pdf),
            (Format::Docx, Format::PlainText),
            (Format::Odt, Format::PlainText),
            (Format::Docx, Format::Odt),
            (Format::Odt, Format::Docx)
        ];
        assert(r@ =~= office_routes());
        r
    }
}

impl LibreOfficeAdapter {
    /// An adapter driving the LibreOffice binary at `binary` (`None` when
    /// none was found; every conversion then fails uniformly).
    pub fn new(binary: Option<PathBuf>) -> (r: LibreOfficeAdapter)
        ensures
            r.binary() == binary,
    {
        LibreOfficeAdapter { binary }
    }

    pub closed spec fn binary(&self) -> Option<PathBuf> {
        self.binary
    }

    /// The LibreOffice binary this adapter drives, if one was found.
    pub fn binary_path(&self) -> (r: &Option<PathBuf>)
        ensures
            *r == self.binary(),
    {
        &self.binary
    }
}

/// The LibreOffice export filter for a target format.
pub open spec fn filter_for(to: Format) -> Option<Seq<char>> {
    match to {
        Format::Pdf => Some("pdf"@),
        Format::PlainText => Some("txt:Text"@),
        Format::Docx => Some("docx:MS Word 2007 XML"@),
        Format::Odt => Some("odt:writer8"@),
        _ => None,
    }
}

/// The `--convert-to` filter argument LibreOffice needs for `to`.
pub fn target_filter(to: Format) -> (r: Option<&'static str>)
    ensures
        match filter_for(to) {
            Some(f) => r matches Some(s) && s@ == f,
            None => r is None,
        },
{
    match to {
        Format::Pdf => Some("pdf"),
        Format::PlainText => Some("txt:Text"),
        Format::Docx => Some("docx:MS Word 2007 XML"),
        Format::Odt => Some("odt:writer8"),
        _ => None,
    }
}

/// What stops an office conversion before LibreOffice is started.
#[derive(Debug)]
pub enum OfficeRefusal {
    /// No LibreOffice binary was found.
    MissingTool,
    /// No export filter is mapped for the target; the message says which.
    NoFilter(String),
}

/// The message when no export filter is mapped for `to`.
pub open spec fn no_filter_message(to: Format) -> Seq<char> {
    "no LibreOffice export filter mapped for target '"@ + format_name(to) + "'"@
}

impl LibreOfficeAdapter {
    /// The export filter for a conversion into `to`: refused first when no
    /// binary was found, then when `to` has no filter.
    pub fn export_filter(&self, to: Format) -> (r: Result<&'static str, OfficeRefusal>)
        ensures
            self.binary() is None ==> r matches Err(OfficeRefusal::MissingTool),
            self.binary() is Some ==> match filter_for(to) {
                Some(f) => r matches Ok(s) && s@ == f,
                None => r matches Err(OfficeRefusal::NoFilter(m)) && m@ == no_filter_message(to),
            },
    {
        if self.binary.is_none() {
            return Err(OfficeRefusal::MissingTool);
        }
        match target_filter(to) {
            Some(f) => Ok(f),
            None => {
                let mut m = String::from_str("no LibreOffice export filter mapped for target '");
                m.append(to.as_str());
                m.append("'");
                Err(OfficeRefusal::NoFilter(m))
            },
        }
    }
}

/// The options LibreOffice is started with, before the output directory
/// and the input path: headless, without restoring a session, converting
/// with `filter`. They are passed as separate arguments, never through a
/// shell.
pub fn convert_to_args(filter: &str) -> (r: Vec<String>)
    ensures
        string_views(r@) == seq![
            "--headless"@,
            "--norestore"@,
            "--convert-to"@,
            filter@,
            "--outdir"@
        ],
{
    let r = vec![
        String::from_str("--headless"),
        String::from_str("--norestore"),
        String::from_str("--convert-to"),
        String::from_str(filter),
        String::from_str("--outdir")
    ];
    assert(string_views(r@) =~= seq![
        "--headless"@,
        "--norestore"@,
        "--convert-to"@,
        filter@,
        "--outdir"@
    ]);
    r
}

} // verus!
