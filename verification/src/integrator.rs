//! The decisions of the path-tracing integrator.
//!
//! A light path is followed bounce by bounce. At each bounce the renderer
//! asks the scene and the material at the hit, and this module says what the
//! answers mean: whether the path ends there and with which radiance, or along
//! which kind of ray it goes on, with one bounce fewer to spend.

use vstd::prelude::*;

verus! {

/// The integrator, bound to the file its image goes to.
#[derive(Debug)]
pub struct PathTracer {
    output_filename: String,
}

impl PathTracer {
    /// Name of the file the image goes to.
    pub closed spec fn spec_output_filename(&self) -> Seq<char> {
        self.output_filename@
    }

    /// An integrator that writes its image to `output_filename`.
    pub fn new(output_filename: &str) -> (tracer: PathTracer)
        ensures
            tracer.spec_output_filename() == output_filename@,
    {
        PathTracer { output_filename: output_filename.to_owned() }
    }

    /// Name of the file the image goes to.
    pub fn output_filename(&self) -> (name: &str)
        ensures
            name@ == self.spec_output_filename(),
    {
        self.output_filename.as_str()
    }
}

/// The radiance a path returns where it ends.
#[derive(Clone, Copy, Debug, PartialEq, Eq, Structural)]
pub enum Radiance {
    /// No light: the bounces were used up.
    Black,
    /// The colour of the background: the ray left the scene.
    Background,
    /// The warning colour, magenta: the surface that was hit has no material.
    MissingMaterial,
    /// What the surface emits towards the ray, and nothing a further ray
    /// would bring.
    Emission,
}

/// What the scene answers to a ray.
#[derive(Clone, Copy, Debug, PartialEq, Eq, Structural)]
pub enum Intersection {
    /// The ray meets nothing.
    Miss,
    /// The ray meets a surface that has no material.
    Bare,
    /// The ray meets a surface with a material.
    Surface,
}

/// What a material answers when asked to scatter a ray.
#[derive(Clone, Copy, Debug, PartialEq, Eq, Structural)]
pub enum Scatter {
    /// The ray is absorbed.
    Absorbed,
    /// The material names the one ray that goes on, as a mirror or a
    /// refracting surface does.
    Delta,
    /// The material hands out a density to draw the next direction from.
    Diffuse,
}

/// What the renderer does next at a bounce.
#[derive(Clone, Copy, Debug, PartialEq, Eq, Structural)]
pub enum PathAction {
    /// Evaluate the emission at the hit and ask the material to scatter.
    Shade,
    /// Draw a direction and evaluate the density it was drawn from: with
    /// `mix_lights` the even mixture of sampling towards the lights and the
    /// material's own density, without it the material's density alone.
    Sample { mix_lights: bool },
    /// Return the emission plus the attenuated radiance of the next ray,
    /// followed with `depth` bounces left; `weighted` says that the radiance
    /// is also scaled by the material's scattering density over the density
    /// that the direction was drawn from.
    Follow { depth: u32, weighted: bool },
    /// End the path and return the given radiance.
    Finish(Radiance),
}

/// One bounce of a path that still has bounces to spend.
#[derive(Clone, Copy, Debug)]
pub struct Bounce {
    depth: u32,
    has_lights: bool,
}

impl Bounce {
    #[verifier::type_invariant]
    spec fn has_depth(self) -> bool {
        self.depth > 0
    }

    /// Bounces left, this one included; never 0.
    pub closed spec fn spec_depth(&self) -> u32 {
        self.depth
    }

    /// There are lights to sample towards.
    pub closed spec fn spec_has_lights(&self) -> bool {
        self.has_lights
    }

    /// What the answer of the scene means.
    pub open spec fn spec_on_intersection(&self, hit: Intersection) -> PathAction {
        match hit {
            Intersection::Miss => PathAction::Finish(Radiance::Background),
            Intersection::Bare => PathAction::Finish(Radiance::MissingMaterial),
            Intersection::Surface => PathAction::Shade,
        }
    }

    /// What the answer of the material means.
    pub open spec fn spec_on_scatter(&self, reply: Scatter) -> PathAction {
        match reply {
            Scatter::Absorbed => PathAction::Finish(Radiance::Emission),
            Scatter::Delta => PathAction::Follow {
                depth: (self.spec_depth() - 1) as u32,
                weighted: false,
            },
            Scatter::Diffuse => PathAction::Sample { mix_lights: self.spec_has_lights() },
        }
    }

    /// What the density of the drawn direction means.
    pub open spec fn spec_on_density(&self, negligible: bool) -> PathAction {
        if negligible {
            PathAction::Finish(Radiance::Emission)
        } else {
            PathAction::Follow { depth: (self.spec_depth() - 1) as u32, weighted: true }
        }
    }

    /// Starts a bounce with `depth` bounces left. With none left there is no
    /// bounce: the path ends and returns no light.
    pub fn begin(depth: u32, has_lights: bool) -> (bounce: Option<Bounce>)
        ensures
            bounce is None <==> depth == 0,
            bounce matches Some(b) ==> b.spec_depth() == depth && b.spec_has_lights()
                == has_lights,
    {
        if depth == 0 {
            None
        } else {
            Some(Bounce { depth, has_lights })
        }
    }

    /// Bounces left, this one included.
    #[verifier::when_used_as_spec(spec_depth)]
    pub fn depth(&self) -> (d: u32)
        ensures
            d == self.spec_depth(),
            d > 0,
    {
        proof {
            use_type_invariant(self);
        }
        self.depth
    }

    /// There are lights to sample towards.
    #[verifier::when_used_as_spec(spec_has_lights)]
    pub fn has_lights(&self) -> (l: bool)
        ensures
            l == self.spec_has_lights(),
    {
        self.has_lights
    }

    /// The scene has answered: a miss ends the path with the background, a
    /// surface without material ends it with the warning colour, and any
    /// other surface is shaded.
    pub fn on_intersection(&self, hit: Intersection) -> (action: PathAction)
        ensures
            action == self.spec_on_intersection(hit),
    {
        match hit {
            Intersection::Miss => PathAction::Finish(Radiance::Background),
            Intersection::Bare => PathAction::Finish(Radiance::MissingMaterial),
            Intersection::Surface => PathAction::Shade,
        }
    }

    /// The material has answered: absorption ends the path with the emission
    /// alone, a named ray is followed as it is, and a density is sampled,
    /// mixed with the lights where there are any.
    pub fn on_scatter(&self, reply: Scatter) -> (action: PathAction)
        ensures
            action == self.spec_on_scatter(reply),
    {
        proof {
            use_type_invariant(self);
        }
        match reply {
            Scatter::Absorbed => PathAction::Finish(Radiance::Emission),
            Scatter::Delta => PathAction::Follow { depth: self.depth - 1, weighted: false },
            Scatter::Diffuse => PathAction::Sample { mix_lights: self.has_lights },
        }
    }

    /// The density of the drawn direction is known: where it is negligible
    /// the path ends with the emission alone, else the drawn ray is followed
    /// and its radiance weighted.
    pub fn on_density(&self, negligible: bool) -> (action: PathAction)
        ensures
            action == self.spec_on_density(negligible),
    {
        proof {
            use_type_invariant(self);
        }
        if negligible {
            PathAction::Finish(Radiance::Emission)
        } else {
            PathAction::Follow { depth: self.depth - 1, weighted: true }
        }
    }
}

/// Whatever the material answers and whatever the density is, a ray that is
/// followed has one bounce fewer to spend than the bounce it leaves: no path
/// goes on for more bounces than it started with.
pub proof fn lemma_follow_spends_a_bounce(bounce: Bounce, reply: Scatter, negligible: bool)
    requires
        bounce.spec_depth() > 0,
    ensures
        bounce.spec_on_scatter(reply) matches PathAction::Follow { depth, .. } ==> depth + 1
            == bounce.spec_depth(),
        bounce.spec_on_density(negligible) matches PathAction::Follow { depth, .. } ==> depth + 1
            == bounce.spec_depth(),
{
}

} // verus!
