mod elem;
mod functions;
mod matrix;
mod network;
mod render;

pub use elem::Fixed;
pub use elem::MatElem;
pub use elem::RandomElem;
pub use elem::FIXED_ONE;
pub use matrix::Collect;
pub use matrix::Mat;
pub use matrix::MatError;
pub use matrix::MatView;
pub use matrix::lemma_mat_add_comm;
pub use matrix::lemma_mat_sub_neg;
pub use matrix::lemma_mat_transpose_involutive;
pub use functions::ActivationFn;
pub use functions::LossFn;
pub use functions::binary_total;
pub use functions::maps_to;
pub use functions::unary_total;
pub use functions::zips_to;
pub use network::NeuralNet;
pub use network::layer_step;
pub use network::backprop_rel;
pub use network::backprop_witness;
pub use network::bp_run;
pub use network::bp_seeds_ok;
pub use network::bp_step;
pub use network::seed_ok_at;
pub use network::BpState;
pub use network::checkpoint_count;
pub use network::column_view;
pub use network::is_checkpoint;
pub use render::dec_bytes;
pub use render::i64_text;
pub use render::int_bytes;
pub use render::lemma_dec_bytes_ascii;
pub use render::row_bytes;
pub use render::rows_bytes;
pub use render::tsv_bytes;
