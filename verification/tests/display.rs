use tabletflow::display::{
    arrange_mac, arrange_windows, display_label, or_fallback, parse_xrandr, selected_display_index,
    windows_monitor, xrandr_numbers, DisplayInfo, MacBounds, WindowsRect,
};
use tabletflow::readings::{Reading, Readings};

fn readings(texts: &[String]) -> Readings {
    let mut list = Vec::new();
    for text in texts {
        list.push(Reading {
            text: text.clone(),
            single: text.parse::<f32>().ok().map(f32::to_bits),
            double: text.parse::<f64>().ok().map(f64::to_bits),
        });
    }
    Readings { list }
}

fn parse(input: &str) -> Vec<DisplayInfo> {
    parse_xrandr(input, &readings(&xrandr_numbers(input)))
}

fn shown(display: &DisplayInfo) -> [f32; 4] {
    [
        f32::from_bits(display.width),
        f32::from_bits(display.height),
        f32::from_bits(display.x),
        f32::from_bits(display.y),
    ]
}

#[test]
fn parses_negative_xrandr_offsets() {
    let input = "DP-1 connected primary 2560x1440+0+0\nHDMI-1 connected 1920x1080-1920+180\n";
    let displays = parse(input);
    assert_eq!(displays.len(), 2);
    assert_eq!(f32::from_bits(displays[0].x), 3200.0);
    assert_eq!(f32::from_bits(displays[1].x), 960.0);
}

#[test]
fn listed_displays_are_described() {
    let displays = parse(
        "Screen 0: minimum 8 x 8, current 4480 x 1440\n\
         DP-1 connected primary 2560x1440+1920+0 (normal left) 597mm x 336mm\n\
         DP-2 disconnected (normal left)\n\
         DP-3 connected (normal left)\n\
         HDMI-1 connected 1920x1080+0+360 (normal left) 5mm x 3mm\n",
    );
    assert_eq!(displays.len(), 2);
    assert_eq!(displays[0].label, "Primary display · 2560 × 1440");
    assert_eq!(shown(&displays[0]), [2560.0, 1440.0, 3200.0, 720.0]);
    assert!(displays[0].primary && displays[0].detected);
    assert_eq!(displays[1].index, 1);
    assert_eq!(displays[1].label, "Display 2 · 1920 × 1080");
    assert_eq!(shown(&displays[1]), [1920.0, 1080.0, 960.0, 900.0]);
    assert!(!displays[1].primary);
}

#[test]
fn lines_without_numbers_are_passed_over() {
    assert!(parse("").is_empty());
    assert!(parse("A connected 1x2+a+4\nB connected x+1+2\nC connected 1920x1080\n").is_empty());
}

#[test]
fn a_fallback_stands_in_for_no_display() {
    let list = or_fallback(Vec::new());
    assert_eq!(list.len(), 1);
    assert_eq!(list[0].label, "Primary display · 1920 × 1080");
    assert_eq!(shown(&list[0]), [1920.0, 1080.0, 960.0, 540.0]);
    assert!(!list[0].detected && list[0].primary);
    let found = parse("DP-1 connected 800x600+0+0\n");
    assert_eq!(or_fallback(found)[0].label, "Display 1 · 800 × 600");
}

#[test]
fn labels_round_to_even() {
    for (width, height) in [(1366.5f32, 767.5f32), (0.4, 2.5), (-3.0, 1e9)] {
        assert_eq!(
            display_label(6, width.to_bits(), height.to_bits()),
            format!("Display {} · {:.0} × {:.0}", 7, width, height)
        );
    }
}

#[test]
fn mac_displays_are_moved_to_the_origin() {
    let bounds = |id: u32, x: f64, y: f64, width: f64, height: f64| MacBounds {
        id,
        x: x.to_bits(),
        y: y.to_bits(),
        width: width.to_bits(),
        height: height.to_bits(),
    };
    let list = vec![
        bounds(7, 0.0, 0.0, 1440.0, 900.0),
        bounds(8, 5.0, 5.0, 0.0, 900.0),
        bounds(9, -1920.0, -100.0, 1920.0, 1080.0),
    ];
    let found = arrange_mac(&list, 7);
    assert_eq!(found.len(), 2);
    assert_eq!(found[0].label, "Primary display · 1440 × 900");
    assert_eq!(shown(&found[0]), [1440.0, 900.0, 2640.0, 550.0]);
    assert_eq!(found[1].index, 2);
    assert_eq!(found[1].label, "Display 3 · 1920 × 1080");
    assert_eq!(shown(&found[1]), [1920.0, 1080.0, 960.0, 540.0]);
}

#[test]
fn windows_displays_are_offset_by_the_primary_one() {
    let rect = |left, top, right, bottom| WindowsRect { left, top, right, bottom };
    let list = vec![
        windows_monitor(rect(0, 0, 1920, 1080), 1).unwrap(),
        windows_monitor(rect(-1280, 56, 0, 1080), 0).unwrap(),
    ];
    assert!(windows_monitor(rect(5, 0, 5, 10), 0).is_none());
    assert!(windows_monitor(rect(0, 10, 5, 10), 1).is_none());
    let found = arrange_windows(&list);
    assert_eq!(shown(&found[0]), [1920.0, 1080.0, 3520.0, 540.0]);
    assert_eq!(found[0].label, "Primary display · 1920 × 1080");
    assert_eq!(shown(&found[1]), [1280.0, 1024.0, 1920.0, 568.0]);
    assert_eq!(found[1].label, "Display 2 · 1280 × 1024");
    assert!(found[0].primary && !found[1].primary);
}

#[test]
fn the_covered_display_is_found() {
    let list = parse("DP-1 connected 2560x1440+0+0\nHDMI-1 connected 1920x1080+2560+0\n");
    let find = |width: f32, height: f32, x: f32, y: f32| {
        selected_display_index(&list, width.to_bits(), height.to_bits(), x.to_bits(), y.to_bits())
    };
    assert_eq!(find(1920.0, 1080.0, 3520.0, 540.0), 1);
    assert_eq!(find(1921.5, 1079.0, 3517.5, 542.5), 1);
    assert_eq!(find(1922.0, 1080.0, 3520.0, 540.0), -1);
    assert_eq!(find(1920.0, 1080.0, 3523.0, 540.0), -1);
    assert_eq!(find(f32::NAN, 1080.0, 3520.0, 540.0), -1);
}
