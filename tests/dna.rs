use data_walker::converters::{audio_format, AudioFormat, ConvertError};
use data_walker::dna::{convert_dna, convert_dna_base4, fasta_to_base12, fasta_to_digits};

#[test]
fn test_dna_conversion() {
    let dna = "ACGT";
    let base12 = convert_dna(dna);
    assert!(!base12.is_empty());
    assert!(base12.iter().all(|&d| d < 12));
}

#[test]
fn test_fasta_to_base12() {
    let fasta = ">test\nACGTACGT\nACGTACGT";
    let result = fasta_to_base12(fasta).unwrap();
    assert!(!result.is_empty());
    assert!(result.iter().all(|&x| x < 12));
}

#[test]
fn dna_exact_packing() {
    assert_eq!(convert_dna("ACGT"), vec![0, 7, 1]);
    assert_eq!(convert_dna("acgt"), vec![0, 7, 1]);
    assert_eq!(convert_dna("ACGTACGTACGTACGT"), vec![0, 7, 1, 1, 2, 2, 2, 1, 4, 3]);
    assert_eq!(convert_dna("TTTTTC"), vec![3, 1, 7, 1]);
}

#[test]
fn unrecognised_symbols_are_skipped() {
    assert_eq!(convert_dna("N"), vec![0]);
    assert_eq!(convert_dna("AC-GNT"), convert_dna("ACGT"));
    assert_eq!(convert_dna(""), vec![0]);
}

#[test]
fn zero_valued_chunks_fall_back() {
    assert_eq!(convert_dna("AAAAA"), vec![0]);
}

#[test]
fn base4_is_one_digit_per_base() {
    assert_eq!(convert_dna_base4("ACGTxa"), vec![0, 1, 2, 3, 0]);
    assert_eq!(convert_dna_base4("NNN"), vec![0]);
}

#[test]
fn fasta_headers_are_skipped() {
    let with_header = fasta_to_base12(">ACGT header\nTTTTTC\n").unwrap();
    assert_eq!(with_header, vec![3, 1, 7, 1]);
    let two_records = fasta_to_digits(">a\nAC\n>b GG\nGT\n", 4).unwrap();
    assert_eq!(two_records, vec![0, 1, 2, 3]);
}

#[test]
fn fasta_without_bases_fails() {
    match fasta_to_base12(">only a header\n\nNNNN\n") {
        Err(ConvertError::ConversionFailed(_)) => {}
        other => panic!("unexpected result {:?}", other),
    }
    assert!(fasta_to_digits("", 4).is_err());
}

#[test]
fn error_messages() {
    let e = ConvertError::ConversionFailed("x".to_string());
    assert_eq!(e.message(), "Conversion failed: x");
    let e = ConvertError::InvalidInput("y".to_string());
    assert_eq!(e.message(), "Invalid input data: y");
}

#[test]
fn audio_extensions() {
    assert_eq!(audio_format("wav").unwrap(), AudioFormat::Wav);
    assert_eq!(audio_format("WaV").unwrap(), AudioFormat::Wav);
    assert_eq!(audio_format("MP3").unwrap(), AudioFormat::Mp3);
    match audio_format("flac") {
        Err(ConvertError::InvalidInput(m)) => assert_eq!(m, "Unsupported audio format: flac"),
        other => panic!("unexpected result {:?}", other),
    }
    assert!(audio_format("").is_err());
}
