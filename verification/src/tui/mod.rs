pub mod bufferblock;
pub mod bufferlist;
pub mod viewchar;
pub mod cursor;
pub mod cursor_order;
pub mod lineworker;
pub mod format;
pub mod display;
pub mod row;
pub mod editor;
pub mod layout;
pub mod ready;
