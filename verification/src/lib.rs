//! A frame-cycle resource cache with mark-and-sweep reclamation, and a
//! scheduled-event entity model for emitters ("turrets") and the projectiles
//! they launch.

pub mod textcache;
pub mod turret;
