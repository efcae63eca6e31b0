use dlxt::codec::{decompress, Codec, DecodeError};
use dlxt::extract::{ExtractAction, Extractor, OnUnsupported};
use std::io::Read;

#[test]
fn unsupported_name_is_skipped_by_default() {
    let ex = Extractor::new();
    assert_eq!(ex.plan_one("a.zip"), ExtractAction::Skip);
}

#[test]
fn unsupported_name_is_copied_under_copy() {
    let ex = Extractor::new().on_unsupported(OnUnsupported::Copy);
    assert_eq!(ex.plan_one("a.zip"), ExtractAction::CopyAsIs);
}

#[test]
fn single_compression_suffix_decompresses_to_bare_name() {
    let ex = Extractor::new();
    assert_eq!(
        ex.plan_one("foo.bar.xz"),
        ExtractAction::Decompress { codec: Codec::Xz, out_name: "foo.bar".to_string() }
    );
    assert_eq!(
        ex.plan_one("a.gz"),
        ExtractAction::Decompress { codec: Codec::Gz, out_name: "a".to_string() }
    );
    assert_eq!(
        ex.plan_one("a.bz2"),
        ExtractAction::Decompress { codec: Codec::Bz2, out_name: "a".to_string() }
    );
}

#[test]
fn compound_suffix_goes_through_a_tar_intermediate() {
    let ex = Extractor::new();
    assert_eq!(
        ex.plan_one("x.tar.gz"),
        ExtractAction::DecompressUnpack { codec: Codec::Gz, tar_name: "x.tar".to_string() }
    );
    assert_eq!(
        ex.plan_one("x.tar.xz"),
        ExtractAction::DecompressUnpack { codec: Codec::Xz, tar_name: "x.tar".to_string() }
    );
    assert_eq!(
        ex.plan_one("x.tar.bz2"),
        ExtractAction::DecompressUnpack { codec: Codec::Bz2, tar_name: "x.tar".to_string() }
    );
}

#[test]
fn plain_tar_unpacks_directly() {
    let ex = Extractor::new();
    assert_eq!(ex.plan_one("x.tar"), ExtractAction::Unpack);
}

#[test]
fn gz_round_trip_returns_the_original_bytes() {
    let mut data = Vec::new();
    let mut i: usize = 0;
    while i < 4096 {
        data.push((i * 31 % 251) as u8);
        i += 1;
    }
    let mut enc = flate2::read::GzEncoder::new(&data[..], flate2::Compression::default());
    let mut compressed = Vec::new();
    enc.read_to_end(&mut compressed).unwrap();
    assert_ne!(compressed, data);
    let out = decompress(Codec::Gz, &compressed).unwrap();
    assert_eq!(out, data);
}

#[test]
fn bz2_round_trip_returns_the_original_bytes() {
    let data: Vec<u8> = b"the same bytes, compressed and decompressed, twice over".repeat(40);
    let mut enc = bzip2::read::BzEncoder::new(&data[..], bzip2::Compression::default());
    let mut compressed = Vec::new();
    enc.read_to_end(&mut compressed).unwrap();
    let out = decompress(Codec::Bz2, &compressed).unwrap();
    assert_eq!(out, data);
}

#[test]
fn xz_round_trip_returns_the_original_bytes() {
    let data: Vec<u8> = b"abcdefgh".repeat(513);
    let mut enc = xz2::read::XzEncoder::new(&data[..], 6);
    let mut compressed = Vec::new();
    enc.read_to_end(&mut compressed).unwrap();
    let out = decompress(Codec::Xz, &compressed).unwrap();
    assert_eq!(out, data);
}

#[test]
fn malformed_input_yields_a_decode_error() {
    let garbage: Vec<u8> = vec![1, 2, 3, 4, 5];
    assert_eq!(decompress(Codec::Gz, &garbage), Err(DecodeError));
    assert_eq!(decompress(Codec::Bz2, &garbage), Err(DecodeError));
    assert_eq!(decompress(Codec::Xz, &garbage), Err(DecodeError));
}

#[test]
fn tar_gz_source_plans_download_then_unpack() {
    let sources = vec!["http://h/x.tar.gz".to_string()];
    let plan = dlxt::download::plan_downloads(
        &sources,
        &Vec::new(),
        dlxt::download::OnDuplicated::Skip,
    );
    assert_eq!(plan.len(), 1);
    assert_eq!(plan[0].name, "x.tar.gz");
    let ex = Extractor::new();
    assert_eq!(
        ex.plan_one(&plan[0].name),
        ExtractAction::DecompressUnpack { codec: Codec::Gz, tar_name: "x.tar".to_string() }
    );
}
