use data_walker::config::{
    default_config, extract_ncbi_accession, source_kind, Config, SourceKind, WalkMeta,
};
use data_walker::math::{JuliaPreset, MandelbrotPreset, MathGenerator};
use data_walker::constants::pi_base12;
use data_walker::fractals::dragon_curve;

#[test]
fn test_identity_mapping() {
    let config = Config {
        mappings: Vec::new(),
        categories: Vec::new(),
        converters: Vec::new(),
        sources: vec![],
    };
    let identity = config.get_mapping("NonExistent");
    assert_eq!(identity, [0, 1, 2, 3, 4, 5, 6, 7, 8, 9, 10, 11]);
}

#[test]
fn stored_mappings_are_read_to_twelve_entries() {
    let config = Config {
        mappings: vec![
            ("Short".to_string(), vec![5, 4, 3]),
            ("Long".to_string(), (0..20).rev().collect()),
        ],
        categories: Vec::new(),
        converters: Vec::new(),
        sources: vec![],
    };
    assert_eq!(config.get_mapping("Short"), [5, 4, 3, 3, 4, 5, 6, 7, 8, 9, 10, 11]);
    assert_eq!(config.get_mapping("Long"), [19, 18, 17, 16, 15, 14, 13, 12, 11, 10, 9, 8]);
}

#[test]
fn default_catalogue() {
    let c = default_config();
    assert_eq!(c.get_mapping("Optimal"), [0, 1, 2, 3, 4, 5, 6, 7, 10, 9, 8, 11]);
    assert_eq!(c.get_mapping("Missing"), [0, 1, 2, 3, 4, 5, 6, 7, 8, 9, 10, 11]);
    assert_eq!(c.sources.len(), 3);
    let e = c.get_source("e").unwrap();
    assert_eq!(e.name, "Euler's Number (e)");
    assert!(c.get_source("tau").is_none());
    let math = c.sources_by_category("math");
    let ids: Vec<&str> = math.iter().map(|s| s.id.as_str()).collect();
    assert_eq!(ids, vec!["pi", "e", "dragon_curve"]);
    assert!(c.sources_by_category("dna").is_empty());
}

#[test]
fn walk_meta_copies_the_fields() {
    let c = default_config();
    let m = WalkMeta::from(c.get_source("dragon_curve").unwrap());
    assert_eq!(m.id, "dragon_curve");
    assert_eq!(m.subcategory, "Fractals");
    assert_eq!(m.url, "computed://lsystem");
}

#[test]
fn accession_is_the_last_segment() {
    assert_eq!(
        extract_ncbi_accession("https://www.ncbi.nlm.nih.gov/nuccore/NC_045512.2"),
        "NC_045512.2"
    );
    assert_eq!(extract_ncbi_accession("NC_001802.1"), "NC_001802.1");
    assert_eq!(extract_ncbi_accession("https://x/"), "");
}

#[test]
fn converter_kinds() {
    assert_eq!(source_kind("math.constant.pi"), Some(SourceKind::Math));
    assert_eq!(source_kind("dna"), Some(SourceKind::Dna));
    assert_eq!(source_kind("finance"), Some(SourceKind::Finance));
    assert_eq!(source_kind("math"), None);
    assert_eq!(source_kind("video"), None);
}

#[test]
fn converter_strings() {
    assert_eq!(MathGenerator::from_converter_string("math.constant.pi"), Some(MathGenerator::Pi));
    assert_eq!(
        MathGenerator::from_converter_string("math.fractal.dragon"),
        Some(MathGenerator::DragonCurve)
    );
    assert_eq!(
        MathGenerator::from_converter_string("math.mandelbrot.spiral"),
        Some(MathGenerator::Mandelbrot(MandelbrotPreset::Spiral))
    );
    assert_eq!(
        MathGenerator::from_converter_string("math.julia.rabbit.extra"),
        Some(MathGenerator::Julia(JuliaPreset::Rabbit))
    );
    assert_eq!(MathGenerator::from_converter_string("math.constant"), None);
    assert_eq!(MathGenerator::from_converter_string("physics.constant.pi"), None);
    assert_eq!(MathGenerator::from_converter_string("math.fractal.gosper"), None);
}

#[test]
fn generators_produce_digits() {
    assert_eq!(MathGenerator::Pi.generate(20), Some(pi_base12(20)));
    assert_eq!(MathGenerator::DragonCurve.generate(5), Some(dragon_curve(14)));
    assert_eq!(MathGenerator::Mandelbrot(MandelbrotPreset::Antenna).generate(10), None);
}
