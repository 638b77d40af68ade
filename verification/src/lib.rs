//! Verified core of a wave-based language model engine.

pub mod config;
pub mod seqs;
pub mod weights;
pub mod wave_decode;
pub mod wave_model;
pub mod text;
pub mod sections;
pub mod gradients;
pub mod param_groups;
pub mod json;
pub mod health;
pub mod train;
pub mod train_loop;
pub mod wave_training;
pub mod curriculum;
pub mod run_setup;
pub mod scale;
pub mod bytes;
pub mod token_cache;
pub mod validation;
pub mod checkpoint;
pub mod readings;
pub mod recommend;
pub mod parse;
pub mod relations;
pub mod encode;
pub mod monitor;
pub mod model;
pub mod gpu;
pub mod gpu_ode;
pub mod gradient_check;
pub mod gradient_file;
pub mod forward;
pub mod parity;
pub mod ode;
pub mod arith;
pub mod layers;
pub mod attention;
pub mod kerr;
pub mod kerr_capture;
pub mod proj;
pub mod model_forward;
pub mod ode_backward;
pub mod split_band;
pub mod linear_exact;
pub mod capture_exact;
pub mod correlation_exact;
pub mod cosine_exact;
pub mod decoder_exact;
pub mod damping_exact;
pub mod loss_exact;
pub mod range_exact;
pub mod regulator_exact;
pub mod scheme_exact;
pub mod ode_exact;
pub mod split_exact;
pub mod loss;
pub mod passes;
pub mod phase_loss;
pub mod coherence;
pub mod wave_score;
pub mod backprop;
pub mod decoder;
pub mod backward;
pub mod ffn;
pub mod statistics;
pub mod optimizer;
pub mod regulation;
pub mod sub_harmonic;
pub mod wave_analysis;
pub mod ode_distortion;
pub mod ode_monitor;
pub mod phase_state;
pub mod phase_report;
pub mod wave_memory;
pub mod parity_cases;
pub mod tables;
pub mod wave_init;
pub mod estimates;
pub mod sizing;
pub mod energy;
pub mod exact;
pub mod values;
pub mod attention_exact;
pub mod averages;
pub mod training_exact;
pub mod forward_exact;
pub mod schedule_exact;
pub mod tables_exact;
pub mod decode_exact;
pub mod memory_exact;
pub mod score_exact;
pub mod analysis_exact;
pub mod structure_exact;
pub mod phase_exact;
pub mod monitor_exact;
pub mod oscillator_exact;
pub mod readings_exact;
pub mod pipeline_exact;
pub mod report_exact;
pub mod stage_exact;
pub mod calls_exact;
pub mod results_exact;
pub mod wiring_exact;
pub mod verdict_exact;
pub mod init_exact;
pub mod likeness_exact;
pub mod training_step;
