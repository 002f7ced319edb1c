use snowrun::screenshot::{write_png, Frame, PngFault};

fn frame(width: u16, height: u16, len: usize) -> Frame {
    let mut rgba = Vec::new();
    for i in 0..len {
        rgba.push((i * 7 % 251) as u8);
    }
    Frame { width, height, rgba }
}

#[test]
fn a_frame_reads_back_from_its_file() {
    let f = frame(5, 3, 60);
    let mut file = Vec::new();
    assert_eq!(write_png(&mut file, &f), Ok(()));
    let mut reader = png::Decoder::new(file.as_slice()).read_info().unwrap();
    let mut pixels = vec![0; reader.output_buffer_size()];
    let info = reader.next_frame(&mut pixels).unwrap();
    assert_eq!((info.width, info.height), (5, 3));
    assert_eq!(info.color_type, png::ColorType::Rgba);
    assert_eq!(info.bit_depth, png::BitDepth::Eight);
    assert_eq!(pixels, f.rgba);
}

#[test]
fn a_file_starts_with_the_size_of_its_frame() {
    let mut file = Vec::new();
    assert_eq!(write_png(&mut file, &frame(300, 2, 2400)), Ok(()));
    assert_eq!(
        file[..29],
        [
            137, 80, 78, 71, 13, 10, 26, 10, 0, 0, 0, 13, 73, 72, 68, 82, 0, 0, 1, 44, 0, 0, 0,
            2, 8, 6, 0, 0, 0
        ]
    );
}

#[test]
fn a_file_is_what_the_encoder_writes() {
    let f = frame(4, 4, 64);
    let mut expected = Vec::new();
    let mut encoder = png::Encoder::new(&mut expected, 4, 4);
    encoder.set_color(png::ColorType::Rgba);
    encoder.set_depth(png::BitDepth::Eight);
    encoder.write_header().unwrap().write_image_data(&f.rgba).unwrap();
    let mut file = vec![1, 2];
    assert_eq!(write_png(&mut file, &f), Ok(()));
    assert_eq!(file[..2], [1, 2]);
    assert_eq!(file[2..], expected[..]);
}

#[test]
fn frames_without_sides_are_refused() {
    let mut file = Vec::new();
    assert_eq!(write_png(&mut file, &frame(0, 3, 0)), Err(PngFault::ZeroWidth));
    assert_eq!(write_png(&mut file, &frame(3, 0, 0)), Err(PngFault::ZeroHeight));
    assert_eq!(write_png(&mut file, &frame(0, 0, 5)), Err(PngFault::ZeroWidth));
}

#[test]
fn frames_of_the_wrong_size_are_refused() {
    let mut file = Vec::new();
    let r = write_png(&mut file, &frame(2, 2, 15));
    assert_eq!(r, Err(PngFault::WrongSize { expected: 16, actual: 15 }));
    assert_eq!(file[..8], [137, 80, 78, 71, 13, 10, 26, 10]);
    assert!(write_png(&mut file, &frame(2, 2, 17)).is_err());
}

#[test]
fn faults_say_what_the_encoder_says() {
    let said = |w: u32, h: u32, data: &[u8]| {
        let mut encoder = png::Encoder::new(Vec::new(), w, h);
        encoder.set_color(png::ColorType::Rgba);
        encoder.set_depth(png::BitDepth::Eight);
        match encoder.write_header() {
            Ok(mut writer) => writer.write_image_data(data).unwrap_err().to_string(),
            Err(e) => e.to_string(),
        }
    };
    let mut file = Vec::new();
    for (w, h, len) in [(0u16, 1u16, 0usize), (1, 0, 0), (2, 2, 15)] {
        let f = frame(w, h, len);
        let fault = write_png(&mut file, &f).unwrap_err();
        assert_eq!(fault.message(), said(w as u32, h as u32, &f.rgba));
    }
}
