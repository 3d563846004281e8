//! A deterministic, integer-only numeric and cryptographic primitive
//! library behind a fixed binary calling convention: a four-byte selector
//! followed by 32-byte big-endian argument words.
//!
//! The engines are pure functions of their inputs: scale-100 fixed-point
//! arithmetic, a lookup-table trigonometry core, 2-D vector geometry,
//! number-theoretic primitives, affine elliptic-curve point arithmetic,
//! a xorshift* stream generator, a projectile-coefficient derivation, and
//! the word codec and dispatcher that tie them to the wire format.
pub mod arith;
pub mod bits;
pub mod codec;
pub mod curve;
pub mod dispatch;
pub mod fixed;
pub mod geometry;
pub mod numtheory;
pub mod stream;
pub mod trajectory;
pub mod trig;

pub use arith::i64_of_bits;
pub use arith::trunc_div;
pub use arith::wrap_i64;
pub use bits::clmul;
pub use codec::bool_to_abi_word;
pub use codec::encode_option_i64;
pub use codec::encode_option_point;
pub use codec::encode_option_u32;
pub use codec::encode_option_u64;
pub use codec::i64_from_abi_word;
pub use codec::i64_to_abi_word;
pub use codec::point_from_abi_words;
pub use codec::spec_bool_word;
pub use codec::spec_decode_point;
pub use codec::spec_point_words;
pub use codec::spec_u32_word;
pub use codec::spec_u64_word;
pub use codec::spec_zero_word;
pub use codec::u32_from_abi_word;
pub use codec::u32_to_abi_word;
pub use codec::u64_from_abi_word;
pub use codec::u64_to_abi_word;
pub use codec::word_u32;
pub use codec::word_u64;
pub use codec::zero_word;
pub use curve::Point;
pub use curve::point_add;
pub use curve::point_double;
pub use curve::lemma_point_add_identity;
pub use curve::lemma_point_add_self_doubles;
pub use curve::point_wf;
pub use curve::spec_point_add;
pub use curve::spec_point_double;
pub use bits::clmul_below;
pub use bits::constant_time_eq;
pub use bits::count_bits_from;
pub use bits::popcount;
pub use bits::reverse_bits;
pub use bits::rotl64;
pub use bits::rotr64;
pub use arith::sat_add_u64;
pub use arith::sat_mul_i64;
pub use arith::sat_mul_u64;
pub use arith::sat_sub_i64;
pub use arith::sat_sub_u64;
pub use dispatch::add_vectors_handler;
pub use dispatch::clamp_handler;
pub use dispatch::clamp_vector_magnitude_handler;
pub use dispatch::clmul_handler;
pub use dispatch::constant_time_eq_handler;
pub use dispatch::cos_handler;
pub use dispatch::cross_product_handler;
pub use dispatch::dispatch;
pub use dispatch::distance_between_handler;
pub use dispatch::div_handler;
pub use dispatch::dot_product_handler;
pub use dispatch::factorial_handler;
pub use dispatch::gcd_handler;
pub use dispatch::get_projectile_trajectory_coefficients_handler;
pub use dispatch::is_point_in_circle_handler;
pub use dispatch::is_point_in_rect_handler;
pub use dispatch::is_point_in_triangle_handler;
pub use dispatch::is_prime_handler;
pub use dispatch::lcm_handler;
pub use dispatch::lerp_handler;
pub use dispatch::log10_floor_handler;
pub use dispatch::log2_floor_handler;
pub use dispatch::magnitude_handler;
pub use dispatch::modexp_handler;
pub use dispatch::modinv_handler;
pub use dispatch::mul_handler;
pub use dispatch::n_choose_k_handler;
pub use dispatch::normalize_vector_handler;
pub use dispatch::phi_handler;
pub use dispatch::popcount_handler;
pub use dispatch::read_selector;
pub use dispatch::read_word;
pub use dispatch::reflect_vector_handler;
pub use dispatch::reverse_bits_handler;
pub use dispatch::rotate_vector_handler;
pub use dispatch::rotl64_handler;
pub use dispatch::rotr64_handler;
pub use dispatch::scale_vector_handler;
pub use dispatch::sin_handler;
pub use dispatch::square_handler;
pub use dispatch::square_root_handler;
pub use dispatch::squared_distance_handler;
pub use dispatch::subtract_vectors_handler;
pub use dispatch::xorshift_next_handler;
pub use fixed::clamp;
pub use fixed::div;
pub use fixed::is_isqrt;
pub use fixed::lerp;
pub use fixed::mul;
pub use fixed::spec_lerp;
pub use fixed::square;
pub use fixed::spec_isqrt;
pub use fixed::square_root;
pub use geometry::add_vectors;
pub use geometry::clamp_vector_magnitude;
pub use geometry::cross_product;
pub use geometry::distance_between;
pub use geometry::dot_product;
pub use geometry::is_point_in_circle;
pub use geometry::is_point_in_rect;
pub use geometry::is_point_in_triangle;
pub use geometry::magnitude;
pub use geometry::normalize_vector;
pub use geometry::reflect_vector;
pub use geometry::rotate_vector;
pub use geometry::scale_vector;
pub use geometry::spec_dot;
pub use geometry::spec_edge_cross;
pub use geometry::spec_squared_distance;
pub use geometry::squared_distance;
pub use geometry::subtract_vectors;
pub use numtheory::factorial;
pub use numtheory::gcd;
pub use numtheory::log10_floor;
pub use numtheory::log2_floor;
pub use numtheory::n_choose_k;
pub use numtheory::nck_iter;
pub use numtheory::spec_fact;
pub use numtheory::lcm;
pub use numtheory::modexp;
pub use numtheory::modinv;
pub use numtheory::modinv_u64;
pub use numtheory::is_prime;
pub use numtheory::phi;
pub use numtheory::phi_loop;
pub use numtheory::spec_gcd;
pub use numtheory::spec_inv_mod;
pub use numtheory::spec_log10_floor;
pub use numtheory::spec_log2_floor;
pub use numtheory::spec_modinv;
pub use numtheory::strip_factor;
pub use stream::Xorshift64Star;
pub use stream::xs_output;
pub use stream::xs_shift;
pub use trajectory::div_signed;
pub use trajectory::get_projectile_trajectory_coefficients;
pub use trajectory::mul_signed;
pub use trajectory::spec_div_signed;
pub use trajectory::spec_mul_signed;
pub use trajectory::spec_trajectory;
pub use trajectory::square_signed;
pub use trig::cos;
pub use trig::sin;
pub use trig::sine_lut;
pub use trig::spec_cos;
pub use trig::spec_sin;
pub use numtheory::spec_is_prime;
