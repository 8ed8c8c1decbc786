use binary_visualizer::{render_decimal_viz, render_explanation};

#[test]
fn explanation_of_101() {
    let html = render_explanation("101");
    let expected = "<div class='viz-container'>\
\n            <div class='card active'>\
\n                <div class='bit'>1</div>\
\n                <div class='math'>2<sup>2</sup></div>\
\n                <div class='result'>+ 4</div>\
\n            </div>\
\n            \
\n            <div class='card dim'>\
\n                <div class='bit'>0</div>\
\n                <div class='math'>2<sup>1</sup></div>\
\n                <div class='result'>+ 0</div>\
\n            </div>\
\n            \
\n            <div class='card active'>\
\n                <div class='bit'>1</div>\
\n                <div class='math'>2<sup>0</sup></div>\
\n                <div class='result'>+ 1</div>\
\n            </div>\
\n            \
\n        <div class='equals-item'>=</div>\
\n        <div class='card total'>\
\n            <div class='bit'>&Sigma;</div>\
\n            <div class='math'>Sum</div>\
\n            <div class='result'>5</div>\
\n        </div>\
\n        </div>";
    assert_eq!(html, expected);
}

#[test]
fn explanation_structure_of_101() {
    let html = render_explanation("101");
    let active = html.matches("<div class='card active'>").count();
    let dim = html.matches("<div class='card dim'>").count();
    assert_eq!(active + dim, 3);
    let e2 = html.find("2<sup>2</sup>").unwrap();
    let e1 = html.find("2<sup>1</sup>").unwrap();
    let e0 = html.find("2<sup>0</sup>").unwrap();
    assert!(e2 < e1 && e1 < e0);
    let dim_at = html.find("<div class='card dim'>").unwrap();
    assert!(e2 < dim_at && dim_at < e1);
    assert!(html.contains("<div class='card total'>"));
    assert!(html.contains("<div class='result'>5</div>"));
}

#[test]
fn explanation_of_empty_string() {
    let html = render_explanation("");
    assert!(!html.contains("card active"));
    assert!(!html.contains("card dim"));
    assert!(html.starts_with("<div class='viz-container'>\n        <div class='equals-item'>=</div>"));
    assert!(html.contains("<div class='result'>0</div>"));
}

#[test]
fn explanation_tolerates_other_characters() {
    let html = render_explanation("1x1");
    assert!(html.contains("<div class='card dim'>\n                <div class='bit'>x</div>"));
    assert!(html.contains("<div class='result'>5</div>"));
}

#[test]
fn explanation_of_thirty_two_ones() {
    let input = "11111111111111111111111111111111";
    let html = render_explanation(input);
    assert_eq!(html.matches("<div class='card active'>").count(), 32);
    assert!(html.contains("<div class='math'>2<sup>31</sup></div>\n                <div class='result'>+ 2147483648</div>"));
    assert!(html.contains("<div class='result'>4294967295</div>"));
}

#[test]
fn division_steps_of_zero() {
    assert_eq!(
        render_decimal_viz(0),
        "<div class='steps-container'><div class='step-card'>0 / 2 = 0 (Rem: <b>0</b>)</div>\
<div class='instruction'>read remainders top to bottom to get binary</div></div>"
    );
}

#[test]
fn division_steps_of_five() {
    let html = render_decimal_viz(5);
    let expected = "<div class='steps-container'>\
\n            <div class='step-card'>\
\n                <div class='calc'>5 \u{f7} 2 = 2</div>\
\n                <div class='rem'>Rem: <span class='bit-highlight'>1</span></div>\
\n            </div>\
\n            \
\n            <div class='step-card'>\
\n                <div class='calc'>2 \u{f7} 2 = 1</div>\
\n                <div class='rem'>Rem: <span class='bit-highlight'>0</span></div>\
\n            </div>\
\n            \
\n            <div class='step-card'>\
\n                <div class='calc'>1 \u{f7} 2 = 0</div>\
\n                <div class='rem'>Rem: <span class='bit-highlight'>1</span></div>\
\n            </div>\
\n            <div class='instruction'>read remainders top to bottom to get binary</div></div>";
    assert_eq!(html, expected);
    assert_eq!(html.matches("<div class='step-card'>").count(), 3);
}

#[test]
fn division_steps_of_negative() {
    let html = render_decimal_viz(-3);
    assert_eq!(html.matches("step-card").count(), 0);
    assert_eq!(
        html,
        "<div class='steps-container'><div class='instruction'>read remainders top to bottom to get binary</div></div>"
    );
}

#[test]
fn division_steps_of_largest_value() {
    let html = render_decimal_viz(i32::MAX);
    assert_eq!(html.matches("<div class='step-card'>").count(), 31);
    assert!(html.contains("2147483647 \u{f7} 2 = 1073741823"));
}

#[test]
fn repeated_renders_give_identical_output() {
    assert_eq!(render_explanation("1101"), render_explanation("1101"));
    assert_eq!(render_decimal_viz(13), render_decimal_viz(13));
}

#[test]
fn explanation_beyond_thirty_two_digits() {
    let mut input = String::from("1");
    input.push_str(&"0".repeat(64));
    let html = render_explanation(&input);
    assert_eq!(html.matches("<div class='card dim'>").count(), 64);
    assert!(html.contains("<div class='math'>2<sup>64</sup></div>\n                <div class='result'>+ 18446744073709551616</div>"));
    assert!(html.contains("<div class='result'>18446744073709551616</div>"));
}

#[test]
fn explanation_of_seventy_ones() {
    let input = "1".repeat(70);
    let html = render_explanation(&input);
    assert_eq!(html.matches("<div class='card active'>").count(), 70);
    assert!(html.contains("<div class='result'>1180591620717411303423</div>"));
}
