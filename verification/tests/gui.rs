use std::cell::Cell;

use voice_changer::factor::Factor;
use voice_changer::gui::{Button, CheckBox, GUIComponent, Label, Slider, TextBox, Window};

#[test]
fn window_keeps_its_title_and_size() {
    let window = Window::new("Voice Changer", 800, 600);
    assert_eq!(window.title, "Voice Changer");
    assert_eq!(window.width, 800);
    assert_eq!(window.height, 600);
    window.show();
}

#[test]
fn window_add_accepts_components() {
    let mut window = Window::new("Voice Changer", 800, 600);
    let slider = Slider::new(20, 100, 300, 30, Factor::from_milli(800));
    window.add(None::<Button<fn()>>, Some(slider), None, None);
    let checkbox = CheckBox::new(20, 260, "Real-time", false);
    window.add(None::<Button<fn()>>, None, None, Some(checkbox));
    assert_eq!(window.title, "Voice Changer");
}

#[test]
fn slider_holds_and_updates_its_value() {
    let mut slider = Slider::new(20, 100, 300, 30, Factor::from_milli(800));
    assert_eq!(slider.get_value().milli, 800);
    slider.set_value(Factor::one());
    assert_eq!(slider.get_value().milli, 1000);
}

#[test]
fn button_click_runs_the_action() {
    let clicked = Cell::new(0u32);
    let button = Button::new(20, 220, 100, 40, "Start", || {
        clicked.set(clicked.get() + 1);
    });
    assert_eq!(button.label, "Start");
    button.click();
    button.click();
    assert_eq!(clicked.get(), 2);
}

#[test]
fn textbox_holds_and_updates_its_text() {
    let mut textbox = TextBox::new(20, 20, 200, 30, "input.wav");
    assert_eq!(textbox.get_text(), "input.wav");
    textbox.set_text("other.wav");
    assert_eq!(textbox.get_text(), "other.wav");
}

#[test]
fn label_holds_its_text() {
    let label = Label::new(20, 460, 120, 30, "Output");
    assert_eq!(label.text, "Output");
}

#[test]
fn checkbox_toggles() {
    let mut checkbox = CheckBox::new(20, 260, "Real-time", false);
    assert!(!checkbox.is_checked());
    checkbox.toggle();
    assert!(checkbox.is_checked());
    checkbox.toggle();
    assert!(!checkbox.is_checked());
}

#[test]
fn components_can_be_repositioned() {
    let mut slider = Slider::new(0, 0, 300, 30, Factor::one());
    slider.set_position(40, 50);
    assert_eq!((slider.x, slider.y), (40, 50));

    let mut checkbox = CheckBox::new(0, 0, "Real-time", true);
    checkbox.set_position(7, 8);
    assert_eq!((checkbox.x, checkbox.y), (7, 8));
    checkbox.draw();
}
