use life::color::Channel::{Falling, Floor, Rising, Value, Zero};
use life::color::{chroma, sector_channels, Chroma};

#[test]
fn sectors_pick_channels() {
    assert_eq!(sector_channels(0), (Value, Rising, Floor));
    assert_eq!(sector_channels(1), (Falling, Value, Floor));
    assert_eq!(sector_channels(2), (Floor, Value, Rising));
    assert_eq!(sector_channels(3), (Floor, Falling, Value));
    assert_eq!(sector_channels(4), (Rising, Floor, Value));
    assert_eq!(sector_channels(5), (Value, Floor, Falling));
    // a full turn of hue comes back to the first sector
    assert_eq!(sector_channels(6), (Value, Rising, Floor));
    assert_eq!(sector_channels(11), (Value, Floor, Falling));
    assert_eq!(sector_channels(-6), (Value, Rising, Floor));
    assert_eq!(sector_channels(-1), (Zero, Zero, Zero));
    assert_eq!(sector_channels(-7), (Zero, Zero, Zero));
    assert_eq!(sector_channels(i32::MIN), (Zero, Zero, Zero));
}

#[test]
fn chroma_of_grey() {
    assert_eq!(chroma(13, 13, 13), Chroma { max: 13, min: 13, base: 0, numerator: 0 });
}

#[test]
fn chroma_of_colours() {
    assert_eq!(chroma(48, 64, 48), Chroma { max: 64, min: 48, base: 2, numerator: 0 });
    assert_eq!(chroma(191, 48, 48), Chroma { max: 191, min: 48, base: 0, numerator: 0 });
    assert_eq!(chroma(255, 0, 128), Chroma { max: 255, min: 0, base: 0, numerator: -128 });
    assert_eq!(chroma(255, 0, 0), Chroma { max: 255, min: 0, base: 0, numerator: 0 });
    assert_eq!(chroma(10, 20, 200), Chroma { max: 200, min: 10, base: 4, numerator: -10 });
    assert_eq!(chroma(0, 255, 255), Chroma { max: 255, min: 0, base: 2, numerator: 255 });
}
