//! The render features: which extras to enable for a render, combined
//! from an optional features file and command-line overrides.

use vstd::prelude::*;

verus! {

/// The features file contents: every setting optional, falling back to
/// the defaults.
#[derive(Clone, Copy, Debug)]
pub struct FeaturesFile {
    /// Whether to correct for gamma or not.
    pub gamma_correction: Option<bool>,
    /// The number of rays cast per pixel; `1` disables anti-aliasing.
    pub n_samples: Option<usize>,
    /// How many times a ray may bounce, at most.
    pub max_depth: Option<usize>,
}

/// The command-line overrides for the features.
#[derive(Clone, Copy, Debug)]
pub struct FeaturesCli {
    /// If given, disables gamma correction.
    pub disable_gamma_correction: bool,
    /// If given, disables anti-aliasing (one ray per pixel).
    pub disable_anti_aliasing: bool,
    /// The number of rays to cast per pixel, if given.
    pub anti_aliasing_rays: Option<usize>,
    /// The maximum number of bounces, if given.
    pub ray_max_depth: Option<usize>,
}

/// The combined features a render runs with.
#[derive(Clone, Copy, Debug, PartialEq, Eq, Structural)]
pub struct Features {
    /// Whether to correct for gamma or not.
    pub gamma_correction: bool,
    /// The number of samples to shoot through each pixel.
    pub n_samples: usize,
    /// The number of times a ray may bounce, at most.
    pub max_depth: usize,
}

impl Default for Features {
    /// The default features: gamma correction on, one hundred samples per
    /// pixel, fifty bounces.
    fn default() -> (r: Features)
        ensures
            r.gamma_correction == true,
            r.n_samples == 100,
            r.max_depth == 50,
    {
        Features { gamma_correction: true, n_samples: 100, max_depth: 50 }
    }
}

impl Features {
    /// Combines an optional features file with the command-line values:
    /// the file fills in what the defaults would otherwise supply, and
    /// the command line overrides both — an explicit disable flag wins
    /// over any configured value.
    pub fn new(file: Option<FeaturesFile>, cli: FeaturesCli) -> (r: Features)
        ensures
            ({
                let base_gamma = match file {
                    Some(f) => if f.gamma_correction is Some {
                        f.gamma_correction->0
                    } else {
                        true
                    },
                    None => true,
                };
                let base_samples = match file {
                    Some(f) => if f.n_samples is Some {
                        f.n_samples->0
                    } else {
                        100usize
                    },
                    None => 100usize,
                };
                let base_depth = match file {
                    Some(f) => if f.max_depth is Some {
                        f.max_depth->0
                    } else {
                        50usize
                    },
                    None => 50usize,
                };
                &&& r.gamma_correction == (if cli.disable_gamma_correction {
                    false
                } else {
                    base_gamma
                })
                &&& r.n_samples == (if cli.disable_anti_aliasing {
                    1usize
                } else if cli.anti_aliasing_rays is Some {
                    cli.anti_aliasing_rays->0
                } else {
                    base_samples
                })
                &&& r.max_depth == (if cli.ray_max_depth is Some {
                    cli.ray_max_depth->0
                } else {
                    base_depth
                })
            }),
    {
        let def = Features::default();
        let merged: Features = match file {
            Some(f) => Features {
                gamma_correction: match f.gamma_correction {
                    Some(g) => g,
                    None => def.gamma_correction,
                },
                n_samples: match f.n_samples {
                    Some(n) => n,
                    None => def.n_samples,
                },
                max_depth: match f.max_depth {
                    Some(d) => d,
                    None => def.max_depth,
                },
            },
            None => def,
        };
        Features {
            gamma_correction: if cli.disable_gamma_correction {
                false
            } else {
                merged.gamma_correction
            },
            n_samples: if cli.disable_anti_aliasing {
                1
            } else {
                match cli.anti_aliasing_rays {
                    Some(n) => n,
                    None => merged.n_samples,
                }
            },
            max_depth: match cli.ray_max_depth {
                Some(d) => d,
                None => merged.max_depth,
            },
        }
    }
}

} // verus!
