use vangers::level::Power;

#[test]
fn power_value_and_exponent() {
    assert_eq!(Power(0).as_value(), 1);
    assert_eq!(Power(11).as_value(), 2048);
    assert_eq!(Power(30).as_value(), 1 << 30);
    assert_eq!(Power(11).as_power(), 11);
}

use vangers::level::LevelConfig;

const DESCRIPTION: &str = "\
[Global Parameters]
Map Power X = 11
Map Power Y = +14
GeoNet Power = 5
Section Size Power = 7
Minimal Square Power = -2

[Storage]
File Name = fostral.vmc
Palette File = fostral.pal
Compressed Format Using = 1

[Rendering Parameters]
Terrain Max = 4
Shadow Offsets = 1 2  3 4 5
Height Shifts = 6 7
Begin Colors = 10 20 30 40
End Colors = 19 29 39 255
";

#[test]
fn level_description_loads() {
    let config = LevelConfig::load_str(DESCRIPTION).unwrap();
    assert!(config.path.is_none());
    assert!(config.is_compressed);
    assert_eq!((config.size.0.as_power(), config.size.1.as_power()), (11, 14));
    assert_eq!(config.size.0.as_value(), 2048);
    assert_eq!(config.geo.as_power(), 5);
    assert_eq!(config.section.as_power(), 7);
    assert_eq!(config.min_square.as_power(), -2);
    assert_eq!(config.terrains.len(), 4);
    let shadow: Vec<u8> = config.terrains.iter().map(|t| t.shadow_offset).collect();
    let shift: Vec<u8> = config.terrains.iter().map(|t| t.height_shift).collect();
    assert_eq!(shadow, vec![1, 2, 3, 4]);
    assert_eq!(shift, vec![6, 7, 0, 0]);
    assert_eq!(config.terrains[2].colors, 30..39);
    assert_eq!(config.terrains[3].colors, 40..255);
}

#[test]
fn terrain_count_defaults_to_eight() {
    let text = DESCRIPTION.replace("Terrain Max = 4\n", "");
    let config = LevelConfig::load_str(&text).unwrap();
    assert_eq!(config.terrains.len(), 8);
    assert_eq!(config.terrains[4].shadow_offset, 5);
    assert_eq!(config.terrains[5].shadow_offset, 0);
    assert_eq!(config.terrains[7].colors, 0..0);
}

#[test]
fn uncompressed_storage_flag() {
    let text = DESCRIPTION.replace("Compressed Format Using = 1", "Compressed Format Using = 0");
    assert!(!LevelConfig::load_str(&text).unwrap().is_compressed);
}

#[test]
fn level_description_errors() {
    // a byte out of range among the words that are used
    let text = DESCRIPTION.replace("End Colors = 19 29 39 255", "End Colors = 19 29 39 256");
    assert!(LevelConfig::load_str(&text).is_err());
    // a bad word past the terrain count is never read
    let text = DESCRIPTION.replace("1 2  3 4 5", "1 2 3 4 x");
    assert!(LevelConfig::load_str(&text).is_ok());
    // missing key
    let text = DESCRIPTION.replace("GeoNet Power = 5\n", "");
    assert!(LevelConfig::load_str(&text).is_err());
    // malformed exponent
    let text = DESCRIPTION.replace("Map Power X = 11", "Map Power X = 1 1");
    assert!(LevelConfig::load_str(&text).is_err());
    // malformed count
    let text = DESCRIPTION.replace("Terrain Max = 4", "Terrain Max = -4");
    assert!(LevelConfig::load_str(&text).is_err());
    // missing section
    let text = DESCRIPTION.replace("[Storage]", "[Store]");
    assert!(LevelConfig::load_str(&text).is_err());
    // not an INI text at all
    assert!(LevelConfig::load_str("[Global Parameters").is_err());
}
