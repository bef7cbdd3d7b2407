use std::path::PathBuf;
use ufc::adapters::build_default_registry;
use ufc::detection::detect_from_prefix;
use ufc::doc_adapter::{convert_to_args, target_filter, LibreOfficeAdapter, OfficeRefusal};
use ufc::listing::{group_title, sorted_routes};
use ufc::job::{
    collision_candidate, first_collision_step, job_step, next_collision_step, CollisionStep, JobPhase,
    MAX_ATTEMPTS,
};
use ufc::router::resolve_route;
use ufc::validation::validate_output_bytes;
use ufc::{DetectError, Format, Registry, RouteError, ValidationError};

#[test]
fn default_registry_has_54_routes() {
    let r = build_default_registry();
    assert_eq!(r.len(), 5);
    assert_eq!(r.all_routes().len(), 54);
}

#[test]
fn image_routes_are_all_permutations() {
    let r = build_default_registry();
    let raster = [Format::Png, Format::Jpeg, Format::Gif, Format::Bmp, Format::WebP, Format::Tiff];
    for a in raster {
        for b in raster {
            let found = r.find_adapter(a, b);
            if a == b {
                assert_eq!(found, None);
            } else {
                assert_eq!(r.adapter_name(found.unwrap()), "image-rs");
            }
        }
    }
}

#[test]
fn first_registered_adapter_wins() {
    let r = build_default_registry();
    // PDF -> text is offered only by the PDF adapter; DOCX -> PDF only by
    // LibreOffice, registered last.
    assert_eq!(r.adapter_name(r.find_adapter(Format::Pdf, Format::PlainText).unwrap()), "pdf-adapter");
    assert_eq!(r.adapter_name(r.find_adapter(Format::Docx, Format::Pdf).unwrap()), "libreoffice-headless");
    assert_eq!(r.find_adapter(Format::Zip, Format::Pdf), None);
}

#[test]
fn empty_registry_has_no_routes() {
    let r = Registry::new();
    assert_eq!(r.len(), 0);
    assert!(r.all_routes().is_empty());
    assert_eq!(r.find_adapter(Format::Png, Format::Jpeg), None);
}

#[test]
fn route_resolution_errors() {
    let r = build_default_registry();
    match resolve_route(&r, Format::Png, Format::Png) {
        Err(RouteError::IdenticalFormats(f)) => assert_eq!(f, "png"),
        other => panic!("{other:?}"),
    }
    match resolve_route(&r, Format::Zip, Format::Csv) {
        Err(RouteError::NoRoute { from, to }) => {
            assert_eq!(from, "zip");
            assert_eq!(to, "csv");
        }
        other => panic!("{other:?}"),
    }
    let i = resolve_route(&r, Format::Markdown, Format::Html).unwrap();
    assert_eq!(r.adapter_name(i), "markup-adapter");
}

#[test]
fn format_names_round_trip() {
    let all = [
        Format::Png,
        Format::Jpeg,
        Format::Gif,
        Format::Bmp,
        Format::WebP,
        Format::Tiff,
        Format::Pdf,
        Format::Zip,
        Format::Docx,
        Format::Odt,
        Format::PlainText,
        Format::Json,
        Format::Yaml,
        Format::Toml,
        Format::Csv,
        Format::Markdown,
        Format::Html,
    ];
    for f in all {
        assert_eq!(Format::from_str(f.as_str()), Some(f));
    }
}

#[test]
fn format_aliases_are_trimmed_and_case_blind() {
    assert_eq!(Format::from_str("  JPG "), Some(Format::Jpeg));
    assert_eq!(Format::from_str("Yml"), Some(Format::Yaml));
    assert_eq!(Format::from_str("markdown"), Some(Format::Markdown));
    assert_eq!(Format::from_str("TEXT"), Some(Format::PlainText));
    assert_eq!(Format::from_str("tif"), Some(Format::Tiff));
    assert_eq!(Format::from_str("htm"), Some(Format::Html));
    assert_eq!(Format::from_str("exe"), None);
    assert_eq!(Format::from_str(""), None);
}

#[test]
fn detection_of_empty_and_unknown_input() {
    match detect_from_prefix(PathBuf::from("a"), &[]) {
        Err(DetectError::EmptyFile(p)) => assert_eq!(p, PathBuf::from("a")),
        other => panic!("{other:?}"),
    }
    match detect_from_prefix(PathBuf::from("b"), &[0, 1, 2, 3, 0xfe]) {
        Err(DetectError::UnknownSignature(p)) => assert_eq!(p, PathBuf::from("b")),
        other => panic!("{other:?}"),
    }
    assert_eq!(detect_from_prefix(PathBuf::from("c"), b"%PDF-1.7\n").unwrap(), Format::Pdf);
}

#[test]
fn validation_of_outputs() {
    let p = PathBuf::from("out.png");
    match validate_output_bytes(p.clone(), &[], Format::Png) {
        Err(ValidationError::OutputEmpty(q)) => assert_eq!(q, p),
        other => panic!("{other:?}"),
    }
    match validate_output_bytes(p.clone(), &[0xFF, 0xD8, 0xFF, 0xE0], Format::Png) {
        Err(ValidationError::SignatureMismatch { expected, actual }) => {
            assert_eq!(expected, "png");
            assert_eq!(actual, Some("jpeg".to_string()));
        }
        other => panic!("{other:?}"),
    }
    match validate_output_bytes(p.clone(), &[0, 0, 0, 1, 0xfe], Format::Png) {
        Err(ValidationError::SignatureMismatch { expected, actual }) => {
            assert_eq!(expected, "png");
            assert_eq!(actual, None);
        }
        other => panic!("{other:?}"),
    }
    let sig = [0x89, 0x50, 0x4E, 0x47, 0x0D, 0x0A, 0x1A, 0x0A, 0, 0];
    assert!(validate_output_bytes(p, &sig, Format::Png).is_ok());
}

#[test]
fn collision_names() {
    assert_eq!(collision_candidate("report", "pdf", 0), "report.pdf");
    assert_eq!(collision_candidate("report", "pdf", 1), "report_1.pdf");
    assert_eq!(collision_candidate("report", "pdf", 42), "report_42.pdf");
    assert_eq!(collision_candidate("a.b", "txt", 999), "a.b_999.txt");
}

#[test]
fn collision_policy_is_bounded() {
    assert_eq!(first_collision_step(), CollisionStep::Probe(0));
    assert_eq!(next_collision_step(0, false), CollisionStep::Take(0));
    assert_eq!(next_collision_step(0, true), CollisionStep::Probe(1));
    assert_eq!(next_collision_step(7, false), CollisionStep::Take(7));
    assert_eq!(next_collision_step(MAX_ATTEMPTS - 2, true), CollisionStep::Probe(MAX_ATTEMPTS - 1));
    assert_eq!(next_collision_step(MAX_ATTEMPTS - 1, true), CollisionStep::Exhausted);
    // Walking the policy on a directory where every name is taken probes
    // exactly MAX_ATTEMPTS names.
    let mut step = first_collision_step();
    let mut probes = 0;
    while let CollisionStep::Probe(n) = step {
        probes += 1;
        step = next_collision_step(n, true);
    }
    assert_eq!(step, CollisionStep::Exhausted);
    assert_eq!(probes, MAX_ATTEMPTS);
}

#[test]
fn job_steps_in_order() {
    let mut phase = JobPhase::Detect;
    let mut seen = vec![phase];
    while phase != JobPhase::Done {
        let (next, cleanup) = job_step(phase, true);
        assert!(!cleanup);
        phase = next;
        seen.push(phase);
    }
    assert_eq!(
        seen,
        vec![
            JobPhase::Detect,
            JobPhase::Route,
            JobPhase::Prepare,
            JobPhase::Convert,
            JobPhase::Validate,
            JobPhase::Place,
            JobPhase::Rename,
            JobPhase::Done
        ]
    );
}

#[test]
fn failed_steps_clean_up_only_after_conversion_started() {
    assert_eq!(job_step(JobPhase::Detect, false), (JobPhase::Failed, false));
    assert_eq!(job_step(JobPhase::Route, false), (JobPhase::Failed, false));
    assert_eq!(job_step(JobPhase::Convert, false), (JobPhase::Failed, true));
    assert_eq!(job_step(JobPhase::Validate, false), (JobPhase::Failed, true));
    assert_eq!(job_step(JobPhase::Place, false), (JobPhase::Failed, false));
}

#[test]
fn office_filters_and_arguments() {
    assert_eq!(target_filter(Format::Pdf), Some("pdf"));
    assert_eq!(target_filter(Format::PlainText), Some("txt:Text"));
    assert_eq!(target_filter(Format::Docx), Some("docx:MS Word 2007 XML"));
    assert_eq!(target_filter(Format::Odt), Some("odt:writer8"));
    assert_eq!(target_filter(Format::Png), None);
    assert_eq!(convert_to_args("pdf"), vec!["--headless", "--norestore", "--convert-to", "pdf", "--outdir"]);
}

#[test]
fn office_refusals() {
    let missing = LibreOfficeAdapter::new(None);
    assert!(matches!(missing.export_filter(Format::Pdf), Err(OfficeRefusal::MissingTool)));
    let found = LibreOfficeAdapter::new(Some(PathBuf::from("/usr/bin/soffice")));
    assert_eq!(found.export_filter(Format::Odt).unwrap(), "odt:writer8");
    match found.export_filter(Format::Png) {
        Err(OfficeRefusal::NoFilter(m)) => assert_eq!(m, "no LibreOffice export filter mapped for target 'png'"),
        other => panic!("{other:?}"),
    }
}

#[test]
fn any_text_satisfies_a_plain_text_target() {
    let p = PathBuf::from("out.txt");
    assert!(validate_output_bytes(p.clone(), b"let x = 42;\n", Format::PlainText).is_ok());
    assert!(validate_output_bytes(p.clone(), b"# Title\n", Format::PlainText).is_ok());
    match validate_output_bytes(p.clone(), b"plain words\n", Format::Markdown) {
        Err(ValidationError::SignatureMismatch { expected, actual }) => {
            assert_eq!(expected, "md");
            assert_eq!(actual, Some("txt".to_string()));
        }
        other => panic!("{other:?}"),
    }
    let sig = [0x89, 0x50, 0x4E, 0x47, 0x0D, 0x0A, 0x1A, 0x0A, 0, 0];
    assert!(validate_output_bytes(p, &sig, Format::PlainText).is_err());
}

#[test]
fn route_listing_is_sorted_by_adapter_then_formats() {
    let r = build_default_registry();
    let all = r.all_routes();
    let listed = sorted_routes(&all);
    assert_eq!(listed.len(), 54);
    assert_eq!(listed[0], (Format::Csv, Format::Json, "data-adapter"));
    assert_eq!(listed[53], (Format::PlainText, Format::Pdf, "pdf-adapter"));
    for w in listed.windows(2) {
        let a = (w[0].2, w[0].0.as_str(), w[0].1.as_str());
        let b = (w[1].2, w[1].0.as_str(), w[1].1.as_str());
        assert!(a < b, "{a:?} !< {b:?}");
    }
    for e in &all {
        assert!(listed.contains(e));
    }
    assert_eq!(group_title("image-rs"), "Raster Images (image-rs)");
    assert_eq!(group_title("pdf-adapter"), "PDF Engine (pdf-adapter)");
    assert_eq!(group_title("custom"), "custom");
}
