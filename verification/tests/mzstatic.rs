use am_osx_status::maybe_owned_string::MaybeOwnedString;
use am_osx_status::mzstatic::Read;
use am_osx_status::mzstatic::accelerator::{Directives, ParseValueVariant, ReadError, Region, UnknownRegion};
use am_osx_status::mzstatic::image::details::{Details, DetailsParseError};
use am_osx_status::mzstatic::image::effect::{
    Effect, FeaturedCategory, FeaturedPlaylist, Framing, FramingParseError, GeneratedPlaylistCoverPayload, Rgb,
    UnknownEffectError,
};
use am_osx_status::mzstatic::image::quality::Quality;
use am_osx_status::mzstatic::image::{Dimension, ImageFormat, MzStaticImage, ParseError, PoolOrSagaSpecifier, Prefix};
use am_osx_status::mzstatic::pool::{ParseError as PoolParseError, Pool, Variant};
use am_osx_status::num::IntErrorKind;

#[test]
fn pool_basic() {
    assert_eq!(Pool::read("Music/"), Ok(Read { bytes: 6, value: Pool { variant: Variant::Music, number: None } }));
    assert_eq!(Pool::read("Music4/"), Ok(Read { bytes: 7, value: Pool { variant: Variant::Music, number: Some(4) } }));
}

#[test]
fn pool_errors() {
    assert_eq!(Pool::read("Music"), Err(PoolParseError::DidNotTerminate));
    assert_eq!(Pool::read("Music4"), Err(PoolParseError::DidNotTerminate));
    assert_eq!(Pool::read("Nonsense/"), Err(PoolParseError::UnknownVariant));
    assert!(matches!(Pool::read("Music0/"), Err(PoolParseError::BadNumber(e)) if e.kind == IntErrorKind::Zero));
    assert!(matches!(Pool::read("Music999/"), Err(PoolParseError::BadNumber(e)) if e.kind == IntErrorKind::PosOverflow));
    assert_eq!(
        Pool::read("AMCArtistImages126/v4/"),
        Ok(Read { bytes: 19, value: Pool { variant: Variant::MusicArtistImages, number: Some(126) } })
    );
}

#[test]
fn variant_names() {
    for v in [Variant::AppStore, Variant::Books, Variant::CobaltPublic, Variant::VideoHLS] {
        assert_eq!(Variant::from_str(v.to_str()), Some(v));
    }
    assert_eq!(Variant::from_str("music"), None);
}

#[test]
fn bad_region() {
    assert_eq!(Directives::read("cn/r32/00"), Err(ReadError::UnknownRegion(UnknownRegion { region: "cn" })));
}

#[test]
fn no_after_r_value() {
    assert_eq!(Directives::read("r32"), Err(ReadError::ExpectedDelimiterAfterR));
    assert_eq!(Directives::read("au/r50"), Err(ReadError::ExpectedDelimiterAfterR));
    assert_eq!(Directives::read("au/r50abc"), Err(ReadError::ExpectedDelimiterAfterR));
}

#[test]
fn no_r_value_contents() {
    let no_r_num = Directives::read("au/r/30");
    assert!(matches!(no_r_num, Err(ReadError::BadNumeric { variant: ParseValueVariant::R, .. })));
    assert!({
        if let Err(ReadError::BadNumeric { inner, .. }) = no_r_num { *inner.kind() == IntErrorKind::Empty } else { false }
    });
}

#[test]
fn r_value() {
    assert_eq!(
        Directives::read("r32/"),
        Ok(Some(Read { bytes: 4, value: Directives { region: None, r: 32, v: None } }))
    );
}

#[test]
fn r_value_and_region() {
    assert_eq!(
        Directives::read("au/r32/"),
        Ok(Some(Read { bytes: 7, value: Directives { region: Some(Region::AU), r: 32, v: None } }))
    );
    assert_eq!(
        Directives::read("au/r32/123"),
        Ok(Some(Read { bytes: 7, value: Directives { region: Some(Region::AU), r: 32, v: None } }))
    );
}

#[test]
fn r_value_and_region_and_v_value() {
    assert_eq!(
        Directives::read("au/r32/123/"),
        Ok(Some(Read { bytes: 11, value: Directives { region: Some(Region::AU), r: 32, v: Some("123") } }))
    );
    assert_eq!(
        Directives::read("au/r32/not-numeric/"),
        Ok(Some(Read { bytes: 7, value: Directives { region: Some(Region::AU), r: 32, v: None } }))
    );
}

#[test]
fn r_value_and_v_value() {
    assert_eq!(
        Directives::read("r32/not-numeric/"),
        Ok(Some(Read { bytes: 4, value: Directives { region: None, r: 32, v: None } }))
    );
    assert_eq!(
        Directives::read("r32/000/"),
        Ok(Some(Read { bytes: 8, value: Directives { region: None, r: 32, v: Some("000") } }))
    );
}

#[test]
fn directives_absent_and_overflow() {
    assert_eq!(Directives::read("Music4"), Ok(None));
    assert_eq!(Directives::read("us/Music4/"), Ok(None));
    assert!(matches!(
        Directives::read("r70000/"),
        Err(ReadError::BadNumeric { inner, variant: ParseValueVariant::R }) if inner.kind == IntErrorKind::PosOverflow
    ));
    assert_eq!(Region::from_str("jp"), Some(Region::JP));
    assert_eq!(Region::try_from("xx"), Err(UnknownRegion { region: "xx" }));
    assert_eq!(Region::EU.to_str(), "eu");
    assert_eq!(ParseValueVariant::V.to_str(), "v");
}

#[test]
fn general() {
    assert_eq!(
        Details::new("600x600ac.jpg"),
        Ok(Details {
            image_format: ImageFormat::Jpg,
            quality: None,
            effect: Some(Effect::SquareFitCircle),
            resolution: (600, 600),
            language: None
        })
    );
}

#[test]
fn complex() {
    assert_eq!(
        Details::new("3x401SC.FPESS03-159.jpg?l=ru-RU"),
        Ok(Details {
            image_format: ImageFormat::Jpg,
            quality: Quality::new(159).ok(),
            effect: Some(Effect::Frame(Framing::FeaturedPlaylist(FeaturedPlaylist::Essentials(3)))),
            resolution: (3, 401),
            language: Some(MaybeOwnedString::Borrowed("ru-RU"))
        })
    );
}

#[test]
fn details_errors() {
    assert_eq!(Details::new("600600.jpg"), Err(DetailsParseError::MissingResolutionDelimiter));
    assert!(matches!(Details::new("x600.jpg"), Err(DetailsParseError::BadResolution(e, Dimension::X)) if e.kind == IntErrorKind::Empty));
    assert!(matches!(Details::new("600x.jpg"), Err(DetailsParseError::BadResolution(e, Dimension::Y)) if e.kind == IntErrorKind::Empty));
    assert_eq!(Details::new("600x600"), Err(DetailsParseError::MissingFileExtensionDelimiter));
    assert_eq!(Details::new("600x600zz.jpg"), Err(DetailsParseError::UnknownEffect(UnknownEffectError, "zz")));
    assert_eq!(Details::new("600x600.gif"), Err(DetailsParseError::UnsupportedImageFormat("gif")));
    assert_eq!(Details::new("600x600cc-1000.jpg"), Err(DetailsParseError::UnknownEffect(UnknownEffectError, "cc")));
    assert_eq!(Details::new("600x600bb-1000.jpg"), Err(DetailsParseError::QualityOutOfBounds(am_osx_status::mzstatic::image::quality::OutOfRangeError)));
    assert_eq!(Details::new("600x600.jpg?x=1"), Err(DetailsParseError::UnknownUrlParameter));
    assert_eq!(Details::new("600x600.jpg?l=en&x=1"), Err(DetailsParseError::UnknownUrlParameter));
    let plain = Details::new("300x300.webp").unwrap();
    assert_eq!(plain.image_format, ImageFormat::Webp);
    assert_eq!(plain.effect, None);
    assert_eq!(Details::new("1x2bb-75.tiff").unwrap().quality.map(|q| q.into_inner()), Some(75));
}

#[test]
fn framing_and_effects() {
    assert_eq!(Framing::try_from("FPESSC02"), Ok(Framing::FeaturedPlaylist(FeaturedPlaylist::EssentialsClassical(2))));
    assert_eq!(Framing::try_from("CAESS02"), Err(FramingParseError::UnknownFrame("CAESS")));
    assert_eq!(Framing::try_from("FCHGOY01"), Ok(Framing::FeaturedCategory(FeaturedCategory::HitsOfTheYear(1))));
    assert_eq!(Framing::try_from("FPNOPE01"), Err(FramingParseError::UnknownFrame("NOPE")));
    assert!(matches!(Framing::try_from("FPESS"), Err(FramingParseError::VariantParseError(e)) if e.kind == IntErrorKind::Empty));
    assert_eq!(Effect::try_from("mv"), Ok(Effect::MusicVideo));
    assert_eq!(Effect::try_from("xy"), Err(UnknownEffectError));
    assert_eq!(Effect::try_from("SC.FPUD02"), Ok(Effect::Frame(Framing::FeaturedPlaylist(FeaturedPlaylist::Undiscovered(2)))));
    assert_eq!(Effect::BackgroundFill.variant(), "bf");
    assert_eq!(FeaturedPlaylist::from_deconstructed("TSW", 9), Some(FeaturedPlaylist::TheSongwriters(9)));
    assert_eq!(FeaturedPlaylist::TheSongwriters(9).static_str(), "TSW");
    assert_eq!(FeaturedPlaylist::TheSongwriters(9).get_variant_number(), 9);
    assert_eq!(FeaturedCategory::from_deconstructed("HGOY", 4).map(|c| c.get_variant_number()), Some(4));
    assert_eq!(FeaturedCategory::Essentials(1).static_str(), "ESS");
    assert_eq!(&Rgb::new(0xCC, 0xA3, 0x0F).to_raw_hex_uppercase(), b"CCA30F");
}

#[test]
fn quality_bounds() {
    assert!(Quality::test(&999));
    assert!(!Quality::test(&1000));
    assert_eq!(*Quality::new(0).unwrap().get(), 0);
    assert!(Quality::new(1000).is_err());
}

#[test]
fn image_formats_and_prefixes() {
    for ext in ["jpeg", "rgb", "rgba", "sgi", "tif", "tiff", "ico", "jpg"] {
        assert_eq!(ImageFormat::try_from(ext), Ok(ImageFormat::Jpg));
    }
    assert_eq!(ImageFormat::try_from("lsr"), Ok(ImageFormat::LayeredImage));
    assert_eq!(ImageFormat::LayeredImage.to_str(), "lsr");
    assert_eq!(Prefix::read("image/thumb/Music/"), Some(Read { bytes: 12, value: Prefix::ImageThumbnail }));
    assert_eq!(Prefix::read("image/pf/x"), Some(Read { bytes: 9, value: Prefix::ImagePf }));
    assert_eq!(Prefix::read("image/other/x"), None);
    assert_eq!(Prefix::read("img/thumb/"), None);
    assert_eq!(Prefix::ImagePf.to_str(), "image/pf");
}

#[test]
fn parse_full_urls() {
    let url = "https://is1-ssl.mzstatic.com/image/thumb/Music221/v4/47/98/ae/artwork.jpg/520x520ac.jpg";
    let image = MzStaticImage::parse(url).unwrap();
    assert!(image.https);
    assert_eq!(image.subdomain.as_str(), "is1-ssl");
    assert_eq!(image.prefix, Some(Prefix::ImageThumbnail));
    assert!(image.accelerator_directives.is_none());
    assert!(matches!(image.pool, PoolOrSagaSpecifier::Pool(Pool { variant: Variant::Music, number: Some(221) })));
    assert_eq!(image.asset_token.as_str(), "v4/47/98/ae/artwork.jpg");
    assert_eq!(image.parameters.effect, Some(Effect::SquareFitCircle));

    let url = "http://is5.mzstatic.com/image/pf/us/r30/Music4/v4/a1/file.jpg/1200x1200bb.jpg";
    let image = MzStaticImage::parse(url).unwrap();
    assert!(!image.https);
    assert_eq!(image.accelerator_directives, Some(Directives { region: Some(Region::US), r: 30, v: None }));
    assert_eq!(image.asset_token.as_str(), "v4/a1/file.jpg");

    assert!(matches!(MzStaticImage::parse("ftp://a1.mzstatic.com/"), Err(ParseError::BadProtocol)));
    assert!(matches!(MzStaticImage::parse("https://a1.example.com/"), Err(ParseError::BadDomain)));
    assert!(matches!(
        MzStaticImage::parse("https://a1.mzstatic.com/Nope/x/1x1.jpg"),
        Err(ParseError::BadPool(PoolParseError::UnknownVariant))
    ));
    assert!(matches!(
        MzStaticImage::parse("https://a1.mzstatic.com/au/r/Music/x/1x1.jpg"),
        Err(ParseError::BadDirectives(ReadError::BadNumeric { .. }))
    ));
}

#[test]
fn pool_and_token() {
    let image = MzStaticImage::with_pool_and_token(MaybeOwnedString::Borrowed("Music4/v4/ab")).unwrap();
    assert_eq!(image.asset_token.as_str(), "4/ab");
    assert!(image.asset_token.is_borrowed());
    assert_eq!(image.subdomain.as_str(), "a1");
    assert_eq!(image.parameters.resolution, (300, 300));
    let owned = MzStaticImage::with_pool_and_token(MaybeOwnedString::Owned(String::from("Music/xyz"))).unwrap();
    assert_eq!(owned.asset_token.as_str(), "yz");
    assert!(owned.asset_token.is_owned());
    assert!(matches!(MzStaticImage::with_pool_and_token(MaybeOwnedString::Borrowed("Nope/x")), Err(ParseError::NoPool)));
    let read = PoolOrSagaSpecifier::read("Podcasts112/v4").unwrap();
    assert_eq!(read.bytes, 12);
}

#[test]
fn image_addresses_render_back() {
    for url in [
        "https://is1-ssl.mzstatic.com/image/thumb/Music221/v4/47/98/ae/artwork.jpg/520x520ac.jpg",
        "http://is5.mzstatic.com/image/pf/us/r30/123/Music4/v4/a1/file.jpg/1200x1200bb.jpg",
        "https://is1-ssl.mzstatic.com/image/thumb/Features211/v4/fa/c9/88/mza_1.png/296x296SC.FPESSC02-80.webp?l=en-US",
    ] {
        assert_eq!(MzStaticImage::parse(url).unwrap().to_string(), url);
    }
    // Directives without a v-value end in their own slash, and the address adds another.
    let url = "http://is5.mzstatic.com/image/pf/us/r30/Music4/v4/a1/file.jpg/1200x1200bb.jpg";
    assert_eq!(
        MzStaticImage::parse(url).unwrap().to_string(),
        "http://is5.mzstatic.com/image/pf/us/r30//Music4/v4/a1/file.jpg/1200x1200bb.jpg"
    );
}

#[test]
fn parameters_render_back() {
    for text in ["600x600ac.jpg", "3x401SC.FPESS03-159.jpg?l=ru-RU", "10x20.png", "5x5-0.lsr"] {
        assert_eq!(Details::new(text).unwrap().to_string(), text);
    }
    // Category frames are read after `FC` and written after `CA`.
    assert_eq!(Details::new("296x296SC.FCHGOY01-80.webp").unwrap().to_string(), "296x296SC.CAHGOY01-80.webp");
    let edited = Details::edit_url("https://a1.mzstatic.com/image/thumb/Music/v4/x.png/600x600.jpg", |mut d| {
        d.effect = Some(Effect::Frame(Framing::FeaturedPlaylist(FeaturedPlaylist::Essentials(2))));
        d.quality = Quality::new(500).ok();
        d.image_format = ImageFormat::Png;
        d.language = Some(MaybeOwnedString::Borrowed("ru"));
        d
    })
    .unwrap();
    assert_eq!(edited, "https://a1.mzstatic.com/image/thumb/Music/v4/x.png/600x600SC.FPESS02-500.png?l=ru");
    assert!(Details::edit_url("a/600.jpg", |d| d).is_err());
}

#[test]
fn frames_and_effects_render() {
    assert_eq!(Framing::FeaturedCategory(FeaturedCategory::HitsOfTheYear(1)).to_string(), "CAHGOY01");
    assert_eq!(Framing::FeaturedPlaylist(FeaturedPlaylist::DeepCuts(12)).to_string(), "FPDC12");
    assert_eq!(Framing::AppleMusicWatermarkTopRight { classical: true }.to_string(), "DNC01");
    assert_eq!(Framing::AppleMusicWatermarkTopRight { classical: false }.to_string(), "DN01");
    assert_eq!(Effect::MusicVideo.to_string(), "mv");
    assert_eq!(Effect::Frame(Framing::FeaturedPlaylist(FeaturedPlaylist::Chill(3))).to_string(), "SC.FPCHL03");
    assert_eq!(UnknownEffectError.to_string(), "unknown effect");
    assert_eq!(Rgb::new(255, 16, 1).to_upper_hex(), "FF1001");
}

#[test]
fn cover_payloads_render() {
    let colors = [Rgb::new(0, 0, 0), Rgb::new(255, 255, 255), Rgb::new(18, 52, 86), Rgb::new(171, 205, 239)];
    let payload = GeneratedPlaylistCoverPayload::new(colors, "hello?>".to_owned(), Rgb::new(1, 2, 3));
    assert_eq!(
        payload.to_string(),
        "?c1=000000&c2=FFFFFF&c3=123456&c4=ABCDEF&t=aGVsbG8_Pg==&tc=010203&vkey=1"
    );
    let one = GeneratedPlaylistCoverPayload::new(colors, "a".to_owned(), Rgb::new(0, 0, 0));
    assert!(one.to_string().contains("&t=YQ==&"));
}

#[test]
fn pools_and_directives_render() {
    assert_eq!(Pool { variant: Variant::Music, number: Some(4) }.to_string(), "Music4");
    assert_eq!(Pool { variant: Variant::Podcasts, number: None }.to_string(), "Podcasts");
    assert_eq!(PoolOrSagaSpecifier::Saga("Saga9".to_owned()).to_string(), "Saga9");
    assert_eq!(Directives { region: Some(Region::US), r: 30, v: Some("123") }.to_string(), "us/r30/123");
    assert_eq!(Directives { region: None, r: 7, v: None }.to_string(), "r7/");
    assert_eq!(
        ReadError::BadNumeric { inner: am_osx_status::num::ParseIntError { kind: IntErrorKind::InvalidDigit }, variant: ParseValueVariant::V }.to_string(),
        "parse-int error while reading v-value"
    );
    assert_eq!(ReadError::ExpectedDelimiterAfterR.to_string(), "expected delimiter after r-value");
    assert_eq!(UnknownRegion { region: "xx" }.to_string(), "Unknown Accelerator region \"xx\"");
    assert_eq!(Dimension::Y.to_char(), 'Y');
    assert_eq!(Prefix::ImagePf.to_str(), "image/pf");
    assert_eq!(Quality::new(42).unwrap().to_string(), "42");
}
