pub mod board_renderer;
pub mod layout;
pub mod mouse;
pub mod theme;
pub mod widgets;
