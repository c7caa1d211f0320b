# flowengine

An audio-reactive GPU visualizer. `src/` is the verified library: the HUD text
rasterizer (`text`), the rolling sample window (`window`), frame readback and PPM
snapshot conversions (`frame`), output planning for direct DRM/KMS scanout and
EGL config choice (`display`), the decisions of the windowed front end
(`windowed`) and the integer part of the spectrum analysis (`spectrum`).

`app/` is the program around it: device, GPU and audio I/O and the
floating-point analysis. On Linux it drives the screens directly through
DRM/KMS + GBM + EGL + OpenGL ES; elsewhere it runs the wgpu/winit window, which
loads its WGSL scene shader from `shader.wgsl` in the working directory.
