use dvs::encode::Encoder;

#[test]
fn encoder_aliases_map_to_ffmpeg_names() {
    assert_eq!(Encoder::parse("h264"), Encoder::X264);
    assert_eq!(Encoder::parse(""), Encoder::Auto);
    assert_eq!(Encoder::parse("videotoolbox"), Encoder::VideoToolbox);
    assert_eq!(Encoder::parse("libvpx-vp9"), Encoder::Named("libvpx-vp9".to_string()));
}
