use retris::block::{BColor, Block, BlockWithPos, Shape};
use retris::theme::{cursive_to_color, cursive_to_color_pair, BaseColor, Color, ColorStyle};
use retris::timer::split_millis;

const BASES: [BaseColor; 8] = [
    BaseColor::Black,
    BaseColor::Red,
    BaseColor::Green,
    BaseColor::Yellow,
    BaseColor::Blue,
    BaseColor::Magenta,
    BaseColor::Cyan,
    BaseColor::White,
];

#[test]
fn dark_base_colours_have_their_names() {
    let names = [
        "#000000", "#800000", "#008000", "#808000", "#000080", "#800080", "#008080", "#c0c0c0",
    ];
    for (base, name) in BASES.iter().zip(names) {
        assert_eq!(cursive_to_color(Color::Dark(*base)), name);
    }
}

#[test]
fn light_base_colours_have_their_names() {
    let names = [
        "#808080", "#ff0000", "#00ff00", "#ffff00", "#0000ff", "#ff00ff", "#00ffff", "#ffffff",
    ];
    for (base, name) in BASES.iter().zip(names) {
        assert_eq!(cursive_to_color(Color::Light(*base)), name);
    }
}

#[test]
fn the_default_colour_is_black() {
    assert_eq!(cursive_to_color(Color::TerminalDefault), "#000000");
}

#[test]
fn colours_by_parts_are_written_in_two_digits_each() {
    assert_eq!(cursive_to_color(Color::Rgb(0xb2, 0xe6, 0xc6)), "#b2e6c6");
    assert_eq!(cursive_to_color(Color::Rgb(0x08, 0x95, 0x62)), "#089562");
    assert_eq!(cursive_to_color(Color::Rgb(0, 0, 0)), "#000000");
    assert_eq!(cursive_to_color(Color::Rgb(255, 255, 255)), "#ffffff");
    assert_eq!(cursive_to_color(Color::Rgb(1, 10, 16)), "#010a10");
    assert_eq!(cursive_to_color(Color::Rgb(0xde, 0xad, 0x0f)), "#dead0f");
    for r in 0..=255u8 {
        assert_eq!(cursive_to_color(Color::Rgb(r, 255 - r, 7)), format!("#{:02x}{:02x}07", r, 255 - r));
    }
}

#[test]
fn colours_at_low_resolution_are_written_in_as_few_digits_as_they_take() {
    assert_eq!(cursive_to_color(Color::RgbLowRes(1, 2, 3)), "#123");
    assert_eq!(cursive_to_color(Color::RgbLowRes(0, 0, 0)), "#000");
    assert_eq!(cursive_to_color(Color::RgbLowRes(15, 10, 5)), "#fa5");
    assert_eq!(cursive_to_color(Color::RgbLowRes(255, 0, 16)), "#ff010");
    for b in 0..=255u8 {
        assert_eq!(cursive_to_color(Color::RgbLowRes(5, b, 0)), format!("#5{:01x}0", b));
    }
}

#[test]
fn a_style_gives_a_pair_of_names() {
    let pair = cursive_to_color_pair(ColorStyle {
        front: Color::Light(BaseColor::White),
        back: Color::Dark(BaseColor::Black),
    });
    assert_eq!(pair.front, "#ffffff");
    assert_eq!(pair.back, "#000000");
    let other = cursive_to_color_pair(ColorStyle {
        front: Color::Rgb(50, 79, 54),
        back: Color::Dark(BaseColor::Blue),
    });
    assert_eq!(other.front, "#324f36");
    assert_eq!(other.back, "#000080");
}

#[test]
fn every_colour_identity_has_its_style() {
    let solid = |c: Color| ColorStyle { front: c, back: c };
    assert_eq!(BColor::I.to_cursive(), solid(Color::Light(BaseColor::Blue)));
    assert_eq!(BColor::O.to_cursive(), solid(Color::Light(BaseColor::Yellow)));
    assert_eq!(BColor::T.to_cursive(), solid(Color::Light(BaseColor::Magenta)));
    assert_eq!(BColor::S.to_cursive(), solid(Color::Light(BaseColor::Green)));
    assert_eq!(BColor::Z.to_cursive(), solid(Color::Light(BaseColor::Red)));
    assert_eq!(BColor::J.to_cursive(), solid(Color::Light(BaseColor::Cyan)));
    assert_eq!(BColor::L.to_cursive(), solid(Color::Light(BaseColor::White)));
    assert_eq!(BColor::GRID1.to_cursive(), solid(Color::Rgb(0xb2, 0xe6, 0xc6)));
    assert_eq!(BColor::GRID2.to_cursive(), solid(Color::Rgb(0x08, 0x95, 0x62)));
    assert_eq!(BColor::HINT.to_cursive(), solid(Color::Dark(BaseColor::White)));
    assert_eq!(BColor::WARNING.to_cursive(), solid(Color::Light(BaseColor::Yellow)));
    assert_eq!(Shape::Z.to_cursive(), BColor::Z.to_cursive());
    assert_eq!(Shape::I.to_cursive(), solid(Color::Light(BaseColor::Blue)));
    let piece = BlockWithPos::from(Block::new(Shape::J), (3, 4));
    assert_eq!(piece.to_cursive_color(), solid(Color::Light(BaseColor::Cyan)));
    assert_eq!(cursive_to_color_pair(BColor::GRID1.to_cursive()).back, "#b2e6c6");
    assert_eq!(cursive_to_color_pair(BColor::GRID2.to_cursive()).front, "#089562");
}

#[test]
fn milliseconds_split_into_minutes_seconds_and_the_rest() {
    assert_eq!(split_millis(0), (0, 0, 0));
    assert_eq!(split_millis(999), (0, 0, 999));
    assert_eq!(split_millis(1000), (0, 1, 0));
    assert_eq!(split_millis(59_999), (0, 59, 999));
    assert_eq!(split_millis(60_000), (1, 0, 0));
    assert_eq!(split_millis(61_001), (1, 1, 1));
    assert_eq!(split_millis(3_723_456), (62, 3, 456));
    assert_eq!(
        split_millis(u128::MAX),
        (u128::MAX / 60000, (u128::MAX % 60000) / 1000, u128::MAX % 1000)
    );
}
