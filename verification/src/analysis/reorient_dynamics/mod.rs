pub mod oh_reorient;
