//! A scrollable tiling layout: sections of windows on an endless strip, seen through a view.
pub mod animation;
pub mod area_laws;
pub mod axis;
pub mod axis_policy;
pub mod config;
pub mod drop_laws;
pub mod exact;
pub mod fit;
pub mod focus_laws;
pub mod geometry;
pub mod gesture_laws;
pub mod glide_laws;
pub mod insert_hint;
pub mod move_laws;
pub mod order;
pub mod resize_laws;
pub mod scalar;
pub mod section;
pub mod section_check;
pub mod section_edit;
pub mod section_laws;
pub mod section_resize;
pub mod section_size;
pub mod section_state;
pub mod section_tabs;
pub mod show_laws;
pub mod size_laws;
pub mod snap_laws;
pub mod space;
pub mod space_add;
pub mod space_display;
pub mod space_draw;
pub mod space_focus;
pub mod space_gesture;
pub mod space_hit;
pub mod space_insert;
pub mod space_laws;
pub mod space_moves;
pub mod space_query;
pub mod space_remove;
pub mod space_render;
pub mod space_resize;
pub mod space_snap;
pub mod space_swap;
pub mod space_undo;
pub mod space_window;
pub mod span_laws;
pub mod spans;
pub mod tab_bar;
pub mod tab_header;
pub mod tab_titles;
pub mod tile;
pub mod tile_node;
pub mod tree_edit;
pub mod tree_simplify;
pub mod tree_layout;
pub mod tree_leaves;
pub mod tree_walk;
pub mod view_laws;
pub mod view_offset;
pub mod visible_laws;
pub mod window_laws;
pub mod windows;
pub mod working_area;
