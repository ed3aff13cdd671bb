//! A Monte Carlo path tracer, verified with Verus.
//!
//! A camera sends rays through the pixels of a picture. Each ray is followed
//! from surface to surface, scattered by the material of every surface it
//! meets, until it leaves the scene for the sky, is absorbed, or has used up
//! its bounces; what it brings back is averaged over the samples of its
//! pixel and mapped to three bytes.
//!
//! # Numbers
//!
//! All arithmetic is fixed point: a [`scalar::Scalar`] counts billionths of
//! a unit in an integer, every operation rounds toward zero and saturates,
//! and none can fail. A render is therefore a function of the scene, the
//! camera and its random draws alone, the same on every machine. The
//! direction of a vector is taken through a length of eighteen digits, so
//! that it is right to the last digits of a scalar for long and short
//! vectors alike.
//!
//! # Contracts
//!
//! Every type has a model made of integers, its view, and every function
//! states its result over the models: [`shapes::sphere_hit`] says where a
//! ray meets a sphere, [`material::material_scatter`] what a material does
//! for given draws, [`integrator::radiance`] what a path brings back,
//! [`camera::camera_new`] how a camera lays out its pixels. A function that
//! draws random numbers states that its result is the one its model gives
//! for some draws that the generator can hand out; beside it stands a
//! function that takes the draws as arguments and is exact.
//!
//! The proof functions state what holds in general: that a hit lies within
//! its bounds and a scene is hit at its nearest primitive, that the normal
//! of a sphere faces the ray, that a triangle is the same triangle under
//! each name of its corners, that a drawn direction has length one, that
//! without bounces nothing arrives and that an empty scene shows the sky.
//!
//! # What is not proved
//!
//! Two things are taken on trust, and their contracts say how much: the
//! random numbers, which come from the rand crate, and the buffer of the
//! picture, which is kept by the image crate.
pub mod camera;
pub mod canvas;
pub mod color;
pub mod hits;
pub mod integrator;
pub mod interval;
pub mod material;
pub mod mesh;
pub mod ray;
pub mod scalar;
pub mod shapes;
pub mod vec3;
pub mod vector_utils;
